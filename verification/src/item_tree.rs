use vstd::prelude::*;
use crate::idx::{Arena, IdRange};

verus! {

/// Semantic type of a declared variable, parameter or function return value.
#[derive(Clone, Copy, PartialEq, Eq, Structural, Debug)]
pub enum Ty {
    Integer,
    Real,
    Realtime,
    Time,
    Str,
}

/// Signal domain of a discipline.
#[derive(Clone, Copy, PartialEq, Eq, Structural, Debug)]
pub enum Domain {
    Discrete,
    Continuous,
}

/// An item that may stand at the top level of a source file.
#[derive(Clone, Copy, PartialEq, Eq, Structural, Debug)]
pub enum RootItem {
    Module(u32),
    Nature(u32),
    Discipline(u32),
}

/// Any declared item of the file, tagged by kind, holding the handle into
/// the arena of that kind.
#[derive(Clone, Copy, PartialEq, Eq, Structural, Debug)]
pub enum ScopeItem {
    Module(u32),
    Discipline(u32),
    Nature(u32),
    Var(u32),
    Param(u32),
    Net(u32),
    Port(u32),
    Branch(u32),
    Function(u32),
    BlockScope(u32),
    NatureAttr(u32),
    DisciplineAttr(u32),
}

/// The subset of items that may appear inside a procedural block.
#[derive(Clone, Copy, PartialEq, Eq, Structural, Debug)]
pub enum BlockScopeItem {
    Scope(u32),
    Parameter(u32),
    Variable(u32),
}

pub struct Module {
    pub name: String,
    pub expected_ports: Vec<String>,
    pub head_ports: IdRange<Port>,
    pub body_ports: IdRange<Port>,
    pub nets: IdRange<Net>,
    pub branches: IdRange<Branch>,
    pub functions: IdRange<Function>,
    pub scope_items: Vec<BlockScopeItem>,
    pub ast_id: u32,
}

pub struct Port {
    pub name: String,
    pub discipline: Option<String>,
    pub is_input: bool,
    pub is_output: bool,
    pub ast_id: u32,
}

pub struct Net {
    pub name: String,
    pub discipline: Option<String>,
    pub ast_id: u32,
}

pub struct Var {
    pub name: String,
    pub ty: Ty,
    pub ast_id: u32,
}

pub struct Param {
    pub name: String,
    pub ty: Ty,
    pub ast_id: u32,
}

pub struct Nature {
    pub name: String,
    pub parent: Option<String>,
    pub access: Option<String>,
    pub ddt_nature: Option<String>,
    pub idt_nature: Option<String>,
    pub attrs: IdRange<NatureAttr>,
    pub ast_id: u32,
}

pub struct NatureAttr {
    pub name: String,
    pub ast_id: u32,
}

pub struct DisciplineAttr {
    pub name: String,
    pub ast_id: u32,
}

pub struct Discipline {
    pub name: String,
    pub potential: Option<String>,
    pub flow: Option<String>,
    pub attrs: IdRange<DisciplineAttr>,
    pub domain: Option<Domain>,
    pub ast_id: u32,
}

pub struct Branch {
    pub name: String,
    pub ast_id: u32,
}

pub struct BlockScope {
    pub name: String,
    pub parameters: IdRange<Param>,
    pub variables: IdRange<Var>,
    pub scopes: Vec<u32>,
    pub ast_id: u32,
}

pub struct Function {
    pub name: String,
    pub ty: Ty,
    pub args: IdRange<FunctionArg>,
    pub params: IdRange<Param>,
    pub vars: IdRange<Var>,
    pub ast_id: u32,
}

pub struct FunctionArg {
    pub name: String,
    pub is_input: bool,
    pub is_output: bool,
    pub ast_id: u32,
}

/// The arenas the item tree exclusively owns, one per entity kind.
pub struct ItemTreeData {
    pub modules: Arena<Module>,
    pub disciplines: Arena<Discipline>,
    pub natures: Arena<Nature>,
    pub nature_attrs: Arena<NatureAttr>,
    pub discipline_attrs: Arena<DisciplineAttr>,
    pub variables: Arena<Var>,
    pub parameters: Arena<Param>,
    pub nets: Arena<Net>,
    pub ports: Arena<Port>,
    pub branches: Arena<Branch>,
    pub functions: Arena<Function>,
    pub function_args: Arena<FunctionArg>,
    pub block_scopes: Arena<BlockScope>,
}

/// The per-file structural summary of declared items.
///
/// Its content is a pure function of the file's syntax tree, so edits to
/// statement bodies that leave the item structure alone leave it unchanged.
pub struct ItemTree {
    pub top_level: Vec<RootItem>,
    pub data: ItemTreeData,
}

/// Relies on Vec::shrink_to_fit: it affects capacity only, never contents.
#[verifier::external_body]
fn shrink_vec<T>(v: &mut Vec<T>)
    ensures
        final(v)@ == old(v)@,
{
    v.shrink_to_fit()
}

impl ItemTree {
    /// Releases the arenas' spare capacity once construction is done, to
    /// bound steady-state memory; the content stays exactly as built.
    pub fn shrink_to_fit(&mut self)
        ensures
            final(self)@ == old(self)@,
    {
        shrink_vec(&mut self.top_level);
        shrink_vec(&mut self.data.modules.items);
        shrink_vec(&mut self.data.disciplines.items);
        shrink_vec(&mut self.data.natures.items);
        shrink_vec(&mut self.data.nature_attrs.items);
        shrink_vec(&mut self.data.discipline_attrs.items);
        shrink_vec(&mut self.data.variables.items);
        shrink_vec(&mut self.data.parameters.items);
        shrink_vec(&mut self.data.nets.items);
        shrink_vec(&mut self.data.ports.items);
        shrink_vec(&mut self.data.branches.items);
        shrink_vec(&mut self.data.functions.items);
        shrink_vec(&mut self.data.function_args.items);
        shrink_vec(&mut self.data.block_scopes.items);
        proof {
            assert(final(self)@ =~= old(self)@);
        }
    }
}

impl Module {
    /// Head ports and body ports must sit back to back in the ports arena.
    pub open spec fn wf(&self) -> bool {
        &&& self.head_ports.wf()
        &&& self.body_ports.wf()
        &&& self.head_ports.end == self.body_ports.start
    }

    /// All ports of the module, whether declared in the module head or in
    /// its body. A well-formed module uses only one of the two styles; this
    /// view serves consumers that do not care which.
    pub fn ports(&self) -> (r: IdRange<Port>)
        requires
            self.wf(),
        ensures
            r.ids() == self.head_ports.ids() + self.body_ports.ids(),
    {
        self.head_ports.extend(&self.body_ports)
    }
}

/// Capability trait tying each entity kind to its arena and its `ScopeItem`
/// tag: the downcast yields `Some` exactly when the tag matches, and the
/// upcast is total.
pub trait ItemTreeNode: Sized {
    /// The arena of this entity kind inside an item tree.
    spec fn arena_spec(tree: &ItemTree) -> Seq<Self>;

    /// The syntax node the entity was lowered from.
    spec fn ast_id_spec(&self) -> u32;

    fn ast_id(&self) -> (r: u32)
        ensures
            r == self.ast_id_spec(),
    ;

    /// Looks up an instance of `Self` in an item tree.
    fn lookup(tree: &ItemTree, index: u32) -> (r: &Self)
        requires
            index < Self::arena_spec(tree).len(),
        ensures
            *r == Self::arena_spec(tree)[index as int],
    ;

    spec fn id_from_scope_item_spec(item: ScopeItem) -> Option<u32>;

    spec fn id_to_scope_item_spec(id: u32) -> ScopeItem;

    /// Downcasts a `ScopeItem` to a handle of this kind.
    fn id_from_scope_item(item: ScopeItem) -> (r: Option<u32>)
        ensures
            r == Self::id_from_scope_item_spec(item),
    ;

    /// Upcasts a handle of this kind to the generic `ScopeItem`.
    fn id_to_scope_item(id: u32) -> (r: ScopeItem)
        ensures
            r == Self::id_to_scope_item_spec(id),
    ;

    /// Down- and upcast are mutually inverse: downcasting an upcast handle
    /// gives the handle back, and downcasting succeeds only on this kind's tag.
    proof fn tag_bijection(id: u32, item: ScopeItem)
        ensures
            Self::id_from_scope_item_spec(Self::id_to_scope_item_spec(id)) == Some(id),
            Self::id_from_scope_item_spec(item) matches Some(i) ==> Self::id_to_scope_item_spec(
                i,
            ) == item,
    ;
}

impl ItemTreeNode for Module {
    open spec fn arena_spec(tree: &ItemTree) -> Seq<Module> {
        tree.data.modules@
    }

    open spec fn ast_id_spec(&self) -> u32 {
        self.ast_id
    }

    fn ast_id(&self) -> u32 {
        self.ast_id
    }

    fn lookup(tree: &ItemTree, index: u32) -> &Module {
        tree.data.modules.get(index)
    }

    open spec fn id_from_scope_item_spec(item: ScopeItem) -> Option<u32> {
        match item {
            ScopeItem::Module(id) => Some(id),
            _ => None,
        }
    }

    open spec fn id_to_scope_item_spec(id: u32) -> ScopeItem {
        ScopeItem::Module(id)
    }

    fn id_from_scope_item(item: ScopeItem) -> Option<u32> {
        match item {
            ScopeItem::Module(id) => Some(id),
            _ => None,
        }
    }

    fn id_to_scope_item(id: u32) -> ScopeItem {
        ScopeItem::Module(id)
    }

    proof fn tag_bijection(id: u32, item: ScopeItem) {
    }
}

impl ItemTreeNode for Discipline {
    open spec fn arena_spec(tree: &ItemTree) -> Seq<Discipline> {
        tree.data.disciplines@
    }

    open spec fn ast_id_spec(&self) -> u32 {
        self.ast_id
    }

    fn ast_id(&self) -> u32 {
        self.ast_id
    }

    fn lookup(tree: &ItemTree, index: u32) -> &Discipline {
        tree.data.disciplines.get(index)
    }

    open spec fn id_from_scope_item_spec(item: ScopeItem) -> Option<u32> {
        match item {
            ScopeItem::Discipline(id) => Some(id),
            _ => None,
        }
    }

    open spec fn id_to_scope_item_spec(id: u32) -> ScopeItem {
        ScopeItem::Discipline(id)
    }

    fn id_from_scope_item(item: ScopeItem) -> Option<u32> {
        match item {
            ScopeItem::Discipline(id) => Some(id),
            _ => None,
        }
    }

    fn id_to_scope_item(id: u32) -> ScopeItem {
        ScopeItem::Discipline(id)
    }

    proof fn tag_bijection(id: u32, item: ScopeItem) {
    }
}

impl ItemTreeNode for Nature {
    open spec fn arena_spec(tree: &ItemTree) -> Seq<Nature> {
        tree.data.natures@
    }

    open spec fn ast_id_spec(&self) -> u32 {
        self.ast_id
    }

    fn ast_id(&self) -> u32 {
        self.ast_id
    }

    fn lookup(tree: &ItemTree, index: u32) -> &Nature {
        tree.data.natures.get(index)
    }

    open spec fn id_from_scope_item_spec(item: ScopeItem) -> Option<u32> {
        match item {
            ScopeItem::Nature(id) => Some(id),
            _ => None,
        }
    }

    open spec fn id_to_scope_item_spec(id: u32) -> ScopeItem {
        ScopeItem::Nature(id)
    }

    fn id_from_scope_item(item: ScopeItem) -> Option<u32> {
        match item {
            ScopeItem::Nature(id) => Some(id),
            _ => None,
        }
    }

    fn id_to_scope_item(id: u32) -> ScopeItem {
        ScopeItem::Nature(id)
    }

    proof fn tag_bijection(id: u32, item: ScopeItem) {
    }
}

impl ItemTreeNode for Var {
    open spec fn arena_spec(tree: &ItemTree) -> Seq<Var> {
        tree.data.variables@
    }

    open spec fn ast_id_spec(&self) -> u32 {
        self.ast_id
    }

    fn ast_id(&self) -> u32 {
        self.ast_id
    }

    fn lookup(tree: &ItemTree, index: u32) -> &Var {
        tree.data.variables.get(index)
    }

    open spec fn id_from_scope_item_spec(item: ScopeItem) -> Option<u32> {
        match item {
            ScopeItem::Var(id) => Some(id),
            _ => None,
        }
    }

    open spec fn id_to_scope_item_spec(id: u32) -> ScopeItem {
        ScopeItem::Var(id)
    }

    fn id_from_scope_item(item: ScopeItem) -> Option<u32> {
        match item {
            ScopeItem::Var(id) => Some(id),
            _ => None,
        }
    }

    fn id_to_scope_item(id: u32) -> ScopeItem {
        ScopeItem::Var(id)
    }

    proof fn tag_bijection(id: u32, item: ScopeItem) {
    }
}

impl ItemTreeNode for Param {
    open spec fn arena_spec(tree: &ItemTree) -> Seq<Param> {
        tree.data.parameters@
    }

    open spec fn ast_id_spec(&self) -> u32 {
        self.ast_id
    }

    fn ast_id(&self) -> u32 {
        self.ast_id
    }

    fn lookup(tree: &ItemTree, index: u32) -> &Param {
        tree.data.parameters.get(index)
    }

    open spec fn id_from_scope_item_spec(item: ScopeItem) -> Option<u32> {
        match item {
            ScopeItem::Param(id) => Some(id),
            _ => None,
        }
    }

    open spec fn id_to_scope_item_spec(id: u32) -> ScopeItem {
        ScopeItem::Param(id)
    }

    fn id_from_scope_item(item: ScopeItem) -> Option<u32> {
        match item {
            ScopeItem::Param(id) => Some(id),
            _ => None,
        }
    }

    fn id_to_scope_item(id: u32) -> ScopeItem {
        ScopeItem::Param(id)
    }

    proof fn tag_bijection(id: u32, item: ScopeItem) {
    }
}

impl ItemTreeNode for Net {
    open spec fn arena_spec(tree: &ItemTree) -> Seq<Net> {
        tree.data.nets@
    }

    open spec fn ast_id_spec(&self) -> u32 {
        self.ast_id
    }

    fn ast_id(&self) -> u32 {
        self.ast_id
    }

    fn lookup(tree: &ItemTree, index: u32) -> &Net {
        tree.data.nets.get(index)
    }

    open spec fn id_from_scope_item_spec(item: ScopeItem) -> Option<u32> {
        match item {
            ScopeItem::Net(id) => Some(id),
            _ => None,
        }
    }

    open spec fn id_to_scope_item_spec(id: u32) -> ScopeItem {
        ScopeItem::Net(id)
    }

    fn id_from_scope_item(item: ScopeItem) -> Option<u32> {
        match item {
            ScopeItem::Net(id) => Some(id),
            _ => None,
        }
    }

    fn id_to_scope_item(id: u32) -> ScopeItem {
        ScopeItem::Net(id)
    }

    proof fn tag_bijection(id: u32, item: ScopeItem) {
    }
}

impl ItemTreeNode for Port {
    open spec fn arena_spec(tree: &ItemTree) -> Seq<Port> {
        tree.data.ports@
    }

    open spec fn ast_id_spec(&self) -> u32 {
        self.ast_id
    }

    fn ast_id(&self) -> u32 {
        self.ast_id
    }

    fn lookup(tree: &ItemTree, index: u32) -> &Port {
        tree.data.ports.get(index)
    }

    open spec fn id_from_scope_item_spec(item: ScopeItem) -> Option<u32> {
        match item {
            ScopeItem::Port(id) => Some(id),
            _ => None,
        }
    }

    open spec fn id_to_scope_item_spec(id: u32) -> ScopeItem {
        ScopeItem::Port(id)
    }

    fn id_from_scope_item(item: ScopeItem) -> Option<u32> {
        match item {
            ScopeItem::Port(id) => Some(id),
            _ => None,
        }
    }

    fn id_to_scope_item(id: u32) -> ScopeItem {
        ScopeItem::Port(id)
    }

    proof fn tag_bijection(id: u32, item: ScopeItem) {
    }
}

impl ItemTreeNode for Branch {
    open spec fn arena_spec(tree: &ItemTree) -> Seq<Branch> {
        tree.data.branches@
    }

    open spec fn ast_id_spec(&self) -> u32 {
        self.ast_id
    }

    fn ast_id(&self) -> u32 {
        self.ast_id
    }

    fn lookup(tree: &ItemTree, index: u32) -> &Branch {
        tree.data.branches.get(index)
    }

    open spec fn id_from_scope_item_spec(item: ScopeItem) -> Option<u32> {
        match item {
            ScopeItem::Branch(id) => Some(id),
            _ => None,
        }
    }

    open spec fn id_to_scope_item_spec(id: u32) -> ScopeItem {
        ScopeItem::Branch(id)
    }

    fn id_from_scope_item(item: ScopeItem) -> Option<u32> {
        match item {
            ScopeItem::Branch(id) => Some(id),
            _ => None,
        }
    }

    fn id_to_scope_item(id: u32) -> ScopeItem {
        ScopeItem::Branch(id)
    }

    proof fn tag_bijection(id: u32, item: ScopeItem) {
    }
}

impl ItemTreeNode for Function {
    open spec fn arena_spec(tree: &ItemTree) -> Seq<Function> {
        tree.data.functions@
    }

    open spec fn ast_id_spec(&self) -> u32 {
        self.ast_id
    }

    fn ast_id(&self) -> u32 {
        self.ast_id
    }

    fn lookup(tree: &ItemTree, index: u32) -> &Function {
        tree.data.functions.get(index)
    }

    open spec fn id_from_scope_item_spec(item: ScopeItem) -> Option<u32> {
        match item {
            ScopeItem::Function(id) => Some(id),
            _ => None,
        }
    }

    open spec fn id_to_scope_item_spec(id: u32) -> ScopeItem {
        ScopeItem::Function(id)
    }

    fn id_from_scope_item(item: ScopeItem) -> Option<u32> {
        match item {
            ScopeItem::Function(id) => Some(id),
            _ => None,
        }
    }

    fn id_to_scope_item(id: u32) -> ScopeItem {
        ScopeItem::Function(id)
    }

    proof fn tag_bijection(id: u32, item: ScopeItem) {
    }
}

impl ItemTreeNode for BlockScope {
    open spec fn arena_spec(tree: &ItemTree) -> Seq<BlockScope> {
        tree.data.block_scopes@
    }

    open spec fn ast_id_spec(&self) -> u32 {
        self.ast_id
    }

    fn ast_id(&self) -> u32 {
        self.ast_id
    }

    fn lookup(tree: &ItemTree, index: u32) -> &BlockScope {
        tree.data.block_scopes.get(index)
    }

    open spec fn id_from_scope_item_spec(item: ScopeItem) -> Option<u32> {
        match item {
            ScopeItem::BlockScope(id) => Some(id),
            _ => None,
        }
    }

    open spec fn id_to_scope_item_spec(id: u32) -> ScopeItem {
        ScopeItem::BlockScope(id)
    }

    fn id_from_scope_item(item: ScopeItem) -> Option<u32> {
        match item {
            ScopeItem::BlockScope(id) => Some(id),
            _ => None,
        }
    }

    fn id_to_scope_item(id: u32) -> ScopeItem {
        ScopeItem::BlockScope(id)
    }

    proof fn tag_bijection(id: u32, item: ScopeItem) {
    }
}

impl ItemTreeNode for NatureAttr {
    open spec fn arena_spec(tree: &ItemTree) -> Seq<NatureAttr> {
        tree.data.nature_attrs@
    }

    open spec fn ast_id_spec(&self) -> u32 {
        self.ast_id
    }

    fn ast_id(&self) -> u32 {
        self.ast_id
    }

    fn lookup(tree: &ItemTree, index: u32) -> &NatureAttr {
        tree.data.nature_attrs.get(index)
    }

    open spec fn id_from_scope_item_spec(item: ScopeItem) -> Option<u32> {
        match item {
            ScopeItem::NatureAttr(id) => Some(id),
            _ => None,
        }
    }

    open spec fn id_to_scope_item_spec(id: u32) -> ScopeItem {
        ScopeItem::NatureAttr(id)
    }

    fn id_from_scope_item(item: ScopeItem) -> Option<u32> {
        match item {
            ScopeItem::NatureAttr(id) => Some(id),
            _ => None,
        }
    }

    fn id_to_scope_item(id: u32) -> ScopeItem {
        ScopeItem::NatureAttr(id)
    }

    proof fn tag_bijection(id: u32, item: ScopeItem) {
    }
}

impl ItemTreeNode for DisciplineAttr {
    open spec fn arena_spec(tree: &ItemTree) -> Seq<DisciplineAttr> {
        tree.data.discipline_attrs@
    }

    open spec fn ast_id_spec(&self) -> u32 {
        self.ast_id
    }

    fn ast_id(&self) -> u32 {
        self.ast_id
    }

    fn lookup(tree: &ItemTree, index: u32) -> &DisciplineAttr {
        tree.data.discipline_attrs.get(index)
    }

    open spec fn id_from_scope_item_spec(item: ScopeItem) -> Option<u32> {
        match item {
            ScopeItem::DisciplineAttr(id) => Some(id),
            _ => None,
        }
    }

    open spec fn id_to_scope_item_spec(id: u32) -> ScopeItem {
        ScopeItem::DisciplineAttr(id)
    }

    fn id_from_scope_item(item: ScopeItem) -> Option<u32> {
        match item {
            ScopeItem::DisciplineAttr(id) => Some(id),
            _ => None,
        }
    }

    fn id_to_scope_item(id: u32) -> ScopeItem {
        ScopeItem::DisciplineAttr(id)
    }

    proof fn tag_bijection(id: u32, item: ScopeItem) {
    }
}

} // verus!
