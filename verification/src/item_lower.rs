use vstd::prelude::*;
use crate::idx::{Arena, IdRange};
use crate::item_tree::{
    BlockScope, BlockScopeItem, Branch, Discipline, DisciplineAttr, Function, FunctionArg,
    ItemTree, ItemTreeData, Module, Nature, NatureAttr, Net, Param, Port, RootItem, Var,
};
use crate::syntax::{
    AttrDecl, BlockDecl, BranchDecl, DisciplineDecl, FunctionArgDecl, FunctionDecl, ModuleDecl,
    ModuleItem, NatureDecl, NetDecl, ParamDecl, PortDecl, RootDecl, SourceFile, VarDecl,
};

verus! {

/// Mathematical content of a [`Module`]: its vectors read as sequences.
#[verifier::ext_equal]
pub ghost struct ModuleView {
    pub name: String,
    pub expected_ports: Seq<String>,
    pub head_ports: IdRange<Port>,
    pub body_ports: IdRange<Port>,
    pub nets: IdRange<Net>,
    pub branches: IdRange<Branch>,
    pub functions: IdRange<Function>,
    pub scope_items: Seq<BlockScopeItem>,
    pub ast_id: u32,
}

impl View for Module {
    type V = ModuleView;

    open spec fn view(&self) -> ModuleView {
        ModuleView {
            name: self.name,
            expected_ports: self.expected_ports@,
            head_ports: self.head_ports,
            body_ports: self.body_ports,
            nets: self.nets,
            branches: self.branches,
            functions: self.functions,
            scope_items: self.scope_items@,
            ast_id: self.ast_id,
        }
    }
}

/// Mathematical content of a [`BlockScope`].
#[verifier::ext_equal]
pub ghost struct BlockScopeView {
    pub name: String,
    pub parameters: IdRange<Param>,
    pub variables: IdRange<Var>,
    pub scopes: Seq<u32>,
    pub ast_id: u32,
}

impl View for BlockScope {
    type V = BlockScopeView;

    open spec fn view(&self) -> BlockScopeView {
        BlockScopeView {
            name: self.name,
            parameters: self.parameters,
            variables: self.variables,
            scopes: self.scopes@,
            ast_id: self.ast_id,
        }
    }
}

/// Mathematical content of a whole [`ItemTree`]: every arena as a sequence.
#[verifier::ext_equal]
pub ghost struct ItemTreeView {
    pub top_level: Seq<RootItem>,
    pub modules: Seq<ModuleView>,
    pub disciplines: Seq<Discipline>,
    pub natures: Seq<Nature>,
    pub nature_attrs: Seq<NatureAttr>,
    pub discipline_attrs: Seq<DisciplineAttr>,
    pub variables: Seq<Var>,
    pub parameters: Seq<Param>,
    pub nets: Seq<Net>,
    pub ports: Seq<Port>,
    pub branches: Seq<Branch>,
    pub functions: Seq<Function>,
    pub function_args: Seq<FunctionArg>,
    pub block_scopes: Seq<BlockScopeView>,
}

impl View for ItemTree {
    type V = ItemTreeView;

    open spec fn view(&self) -> ItemTreeView {
        ItemTreeView {
            top_level: self.top_level@,
            modules: self.data.modules@.map_values(|m: Module| m@),
            disciplines: self.data.disciplines@,
            natures: self.data.natures@,
            nature_attrs: self.data.nature_attrs@,
            discipline_attrs: self.data.discipline_attrs@,
            variables: self.data.variables@,
            parameters: self.data.parameters@,
            nets: self.data.nets@,
            ports: self.data.ports@,
            branches: self.data.branches@,
            functions: self.data.functions@,
            function_args: self.data.function_args@,
            block_scopes: self.data.block_scopes@.map_values(|b: BlockScope| b@),
        }
    }
}

pub open spec fn empty_view() -> ItemTreeView {
    ItemTreeView {
        top_level: Seq::empty(),
        modules: Seq::empty(),
        disciplines: Seq::empty(),
        natures: Seq::empty(),
        nature_attrs: Seq::empty(),
        discipline_attrs: Seq::empty(),
        variables: Seq::empty(),
        parameters: Seq::empty(),
        nets: Seq::empty(),
        ports: Seq::empty(),
        branches: Seq::empty(),
        functions: Seq::empty(),
        function_args: Seq::empty(),
        block_scopes: Seq::empty(),
    }
}

pub open spec fn id_range<T>(start: int, end: int) -> IdRange<T> {
    IdRange { start: start as u32, end: end as u32, phantom: core::marker::PhantomData }
}

pub open spec fn port_rec(p: PortDecl) -> Port {
    Port {
        name: p.name,
        discipline: p.discipline,
        is_input: p.is_input,
        is_output: p.is_output,
        ast_id: p.ast_id,
    }
}

pub open spec fn net_rec(n: NetDecl) -> Net {
    Net { name: n.name, discipline: n.discipline, ast_id: n.ast_id }
}

pub open spec fn branch_rec(b: BranchDecl) -> Branch {
    Branch { name: b.name, ast_id: b.ast_id }
}

pub open spec fn param_rec(p: ParamDecl) -> Param {
    Param { name: p.name, ty: p.ty, ast_id: p.ast_id }
}

pub open spec fn var_rec(v: VarDecl) -> Var {
    Var { name: v.name, ty: v.ty, ast_id: v.ast_id }
}

pub open spec fn arg_rec(a: FunctionArgDecl) -> FunctionArg {
    FunctionArg { name: a.name, is_input: a.is_input, is_output: a.is_output, ast_id: a.ast_id }
}

pub open spec fn nature_attr_rec(a: AttrDecl) -> NatureAttr {
    NatureAttr { name: a.name, ast_id: a.ast_id }
}

pub open spec fn discipline_attr_rec(a: AttrDecl) -> DisciplineAttr {
    DisciplineAttr { name: a.name, ast_id: a.ast_id }
}

/// Lowering appends to arenas and never rewrites what is already there.
pub open spec fn lower_ports_s(ps: Seq<PortDecl>, acc: ItemTreeView) -> ItemTreeView {
    ItemTreeView { ports: acc.ports + ps.map_values(|p: PortDecl| port_rec(p)), ..acc }
}

pub open spec fn lower_params_s(ps: Seq<ParamDecl>, acc: ItemTreeView) -> ItemTreeView {
    ItemTreeView { parameters: acc.parameters + ps.map_values(|p: ParamDecl| param_rec(p)), ..acc }
}

pub open spec fn lower_vars_s(vs: Seq<VarDecl>, acc: ItemTreeView) -> ItemTreeView {
    ItemTreeView { variables: acc.variables + vs.map_values(|v: VarDecl| var_rec(v)), ..acc }
}

pub open spec fn lower_args_s(args: Seq<FunctionArgDecl>, acc: ItemTreeView) -> ItemTreeView {
    ItemTreeView {
        function_args: acc.function_args + args.map_values(|a: FunctionArgDecl| arg_rec(a)),
        ..acc
    }
}

pub open spec fn lower_nature_attrs_s(attrs: Seq<AttrDecl>, acc: ItemTreeView) -> ItemTreeView {
    ItemTreeView {
        nature_attrs: acc.nature_attrs + attrs.map_values(|a: AttrDecl| nature_attr_rec(a)),
        ..acc
    }
}

pub open spec fn lower_discipline_attrs_s(attrs: Seq<AttrDecl>, acc: ItemTreeView) -> ItemTreeView {
    ItemTreeView {
        discipline_attrs: acc.discipline_attrs + attrs.map_values(
            |a: AttrDecl| discipline_attr_rec(a),
        ),
        ..acc
    }
}

/// A function contributes its argument, parameter and variable ranges and
/// one `Function` record.
pub open spec fn lower_function_s(f: FunctionDecl, acc: ItemTreeView) -> ItemTreeView {
    let args = id_range::<FunctionArg>(
        acc.function_args.len() as int,
        (acc.function_args.len() + f.args@.len()) as int,
    );
    let a1 = lower_args_s(f.args@, acc);
    let params = id_range::<Param>(
        a1.parameters.len() as int,
        (a1.parameters.len() + f.params@.len()) as int,
    );
    let a2 = lower_params_s(f.params@, a1);
    let vars = id_range::<Var>(a2.variables.len() as int, (a2.variables.len() + f.vars@.len()) as int);
    let a3 = lower_vars_s(f.vars@, a2);
    ItemTreeView {
        functions: a3.functions.push(
            Function { name: f.name, ty: f.ty, args, params, vars, ast_id: f.ast_id },
        ),
        ..a3
    }
}

/// A block contributes its parameter and variable ranges, its child scopes
/// in document order, and finally its own `BlockScope` record; the returned
/// handle points at that record.
pub open spec fn lower_block_s(b: BlockDecl, acc: ItemTreeView) -> (ItemTreeView, u32)
    decreases b, 1nat, 0nat,
{
    let params = id_range::<Param>(
        acc.parameters.len() as int,
        (acc.parameters.len() + b.params@.len()) as int,
    );
    let a1 = lower_params_s(b.params@, acc);
    let vars = id_range::<Var>(a1.variables.len() as int, (a1.variables.len() + b.vars@.len()) as int);
    let a2 = lower_vars_s(b.vars@, a1);
    let (a3, kids) = lower_block_children_s(b, 0, a2, Seq::empty());
    let id = a3.block_scopes.len() as u32;
    let rec = BlockScopeView {
        name: b.name,
        parameters: params,
        variables: vars,
        scopes: kids,
        ast_id: b.ast_id,
    };
    (ItemTreeView { block_scopes: a3.block_scopes.push(rec), ..a3 }, id)
}

pub open spec fn lower_block_children_s(
    b: BlockDecl,
    i: int,
    acc: ItemTreeView,
    ids: Seq<u32>,
) -> (ItemTreeView, Seq<u32>)
    decreases b, 0nat, b.blocks@.len() - i,
{
    if 0 <= i < b.blocks@.len() {
        let (a1, id) = lower_block_s(b.blocks@[i], acc);
        lower_block_children_s(b, i + 1, a1, ids.push(id))
    } else {
        (acc, ids)
    }
}

/// One module-body item; parameters, variables and blocks additionally
/// enter the module's ordered scope-item list.
pub open spec fn lower_module_item_s(
    item: ModuleItem,
    acc: ItemTreeView,
    scope: Seq<BlockScopeItem>,
) -> (ItemTreeView, Seq<BlockScopeItem>)
    decreases item, 2nat, 0nat,
{
    match item {
        ModuleItem::Port(p) => (
            ItemTreeView { ports: acc.ports.push(port_rec(p)), ..acc },
            scope,
        ),
        ModuleItem::Net(n) => (ItemTreeView { nets: acc.nets.push(net_rec(n)), ..acc }, scope),
        ModuleItem::Branch(b) => (
            ItemTreeView { branches: acc.branches.push(branch_rec(b)), ..acc },
            scope,
        ),
        ModuleItem::Function(f) => (lower_function_s(f, acc), scope),
        ModuleItem::Param(p) => (
            ItemTreeView { parameters: acc.parameters.push(param_rec(p)), ..acc },
            scope.push(BlockScopeItem::Parameter(acc.parameters.len() as u32)),
        ),
        ModuleItem::Var(v) => (
            ItemTreeView { variables: acc.variables.push(var_rec(v)), ..acc },
            scope.push(BlockScopeItem::Variable(acc.variables.len() as u32)),
        ),
        ModuleItem::Block(b) => {
            let (a1, id) = lower_block_s(b, acc);
            (a1, scope.push(BlockScopeItem::Scope(id)))
        },
    }
}

pub open spec fn lower_module_items_s(
    m: ModuleDecl,
    i: int,
    acc: ItemTreeView,
    scope: Seq<BlockScopeItem>,
) -> (ItemTreeView, Seq<BlockScopeItem>)
    decreases m, 2nat, m.items@.len() - i,
{
    if 0 <= i < m.items@.len() {
        let (a1, s1) = lower_module_item_s(m.items@[i], acc, scope);
        lower_module_items_s(m, i + 1, a1, s1)
    } else {
        (acc, scope)
    }
}

/// A module contributes its head ports, then its body items in document
/// order, and finally its own record. Head and body port ranges sit back to
/// back in the ports arena, so `Module::ports` can concatenate them.
pub open spec fn lower_module_s(m: ModuleDecl, acc: ItemTreeView) -> ItemTreeView
    decreases m, 3nat, 0nat,
{
    let head_start = acc.ports.len() as int;
    let a1 = lower_ports_s(m.head_ports@, acc);
    let head_end = a1.ports.len() as int;
    let (a2, scope) = lower_module_items_s(m, 0, a1, Seq::empty());
    let rec = ModuleView {
        name: m.name,
        expected_ports: m.expected_ports@,
        head_ports: id_range::<Port>(head_start, head_end),
        body_ports: id_range::<Port>(head_end, a2.ports.len() as int),
        nets: id_range::<Net>(a1.nets.len() as int, a2.nets.len() as int),
        branches: id_range::<Branch>(a1.branches.len() as int, a2.branches.len() as int),
        functions: id_range::<Function>(a1.functions.len() as int, a2.functions.len() as int),
        scope_items: scope,
        ast_id: m.ast_id,
    };
    ItemTreeView { modules: a2.modules.push(rec), ..a2 }
}

pub open spec fn lower_nature_s(n: NatureDecl, acc: ItemTreeView) -> ItemTreeView {
    let attrs = id_range::<NatureAttr>(
        acc.nature_attrs.len() as int,
        (acc.nature_attrs.len() + n.attrs@.len()) as int,
    );
    let a1 = lower_nature_attrs_s(n.attrs@, acc);
    let rec = Nature {
        name: n.name,
        parent: n.parent,
        access: n.access,
        ddt_nature: n.ddt_nature,
        idt_nature: n.idt_nature,
        attrs,
        ast_id: n.ast_id,
    };
    ItemTreeView { natures: a1.natures.push(rec), ..a1 }
}

pub open spec fn lower_discipline_s(d: DisciplineDecl, acc: ItemTreeView) -> ItemTreeView {
    let attrs = id_range::<DisciplineAttr>(
        acc.discipline_attrs.len() as int,
        (acc.discipline_attrs.len() + d.attrs@.len()) as int,
    );
    let a1 = lower_discipline_attrs_s(d.attrs@, acc);
    let rec = Discipline {
        name: d.name,
        potential: d.potential,
        flow: d.flow,
        attrs,
        domain: d.domain,
        ast_id: d.ast_id,
    };
    ItemTreeView { disciplines: a1.disciplines.push(rec), ..a1 }
}

/// A top-level item is lowered and its handle recorded in document order.
pub open spec fn lower_root_s(item: RootDecl, acc: ItemTreeView) -> ItemTreeView
    decreases item, 4nat, 0nat,
{
    match item {
        RootDecl::Module(m) => {
            let id = acc.modules.len() as u32;
            let a1 = lower_module_s(m, acc);
            ItemTreeView { top_level: a1.top_level.push(RootItem::Module(id)), ..a1 }
        },
        RootDecl::Nature(n) => {
            let id = acc.natures.len() as u32;
            let a1 = lower_nature_s(n, acc);
            ItemTreeView { top_level: a1.top_level.push(RootItem::Nature(id)), ..a1 }
        },
        RootDecl::Discipline(d) => {
            let id = acc.disciplines.len() as u32;
            let a1 = lower_discipline_s(d, acc);
            ItemTreeView { top_level: a1.top_level.push(RootItem::Discipline(id)), ..a1 }
        },
    }
}

pub open spec fn build_items_s(file: SourceFile, i: int, acc: ItemTreeView) -> ItemTreeView
    decreases file, 5nat, file.items@.len() - i,
{
    if 0 <= i < file.items@.len() {
        build_items_s(file, i + 1, lower_root_s(file.items@[i], acc))
    } else {
        acc
    }
}

/// The item tree a source file lowers to. The whole build is this pure
/// function of the file's declarations: nothing else flows in.
pub open spec fn build_spec(file: SourceFile) -> ItemTreeView {
    build_items_s(file, 0, empty_view())
}

/// Every handle the builder hands out must fit the 32-bit handle type.
pub open spec fn bounded(v: ItemTreeView) -> bool {
    &&& v.top_level.len() <= u32::MAX
    &&& v.modules.len() <= u32::MAX
    &&& v.disciplines.len() <= u32::MAX
    &&& v.natures.len() <= u32::MAX
    &&& v.nature_attrs.len() <= u32::MAX
    &&& v.discipline_attrs.len() <= u32::MAX
    &&& v.variables.len() <= u32::MAX
    &&& v.parameters.len() <= u32::MAX
    &&& v.nets.len() <= u32::MAX
    &&& v.ports.len() <= u32::MAX
    &&& v.branches.len() <= u32::MAX
    &&& v.functions.len() <= u32::MAX
    &&& v.function_args.len() <= u32::MAX
    &&& v.block_scopes.len() <= u32::MAX
}

/// Lowering only appends: whatever stands in the accumulator stands,
/// unchanged and at the same place, in the result.
pub open spec fn extends(a: ItemTreeView, b: ItemTreeView) -> bool {
    &&& a.top_level.len() <= b.top_level.len()
    &&& a.modules.len() <= b.modules.len()
    &&& a.disciplines.len() <= b.disciplines.len()
    &&& a.natures.len() <= b.natures.len()
    &&& a.nature_attrs.len() <= b.nature_attrs.len()
    &&& a.discipline_attrs.len() <= b.discipline_attrs.len()
    &&& a.variables.len() <= b.variables.len()
    &&& a.parameters.len() <= b.parameters.len()
    &&& a.nets.len() <= b.nets.len()
    &&& a.ports.len() <= b.ports.len()
    &&& a.branches.len() <= b.branches.len()
    &&& a.functions.len() <= b.functions.len()
    &&& a.function_args.len() <= b.function_args.len()
    &&& a.block_scopes.len() <= b.block_scopes.len()
}

pub proof fn lemma_extends_trans(a: ItemTreeView, b: ItemTreeView, c: ItemTreeView)
    requires
        extends(a, b),
        extends(b, c),
    ensures
        extends(a, c),
{
}

pub proof fn lemma_block_extends(b: BlockDecl, acc: ItemTreeView)
    ensures
        extends(acc, lower_block_s(b, acc).0),
    decreases b, 1nat, 0nat,
{
    let a1 = lower_params_s(b.params@, acc);
    let a2 = lower_vars_s(b.vars@, a1);
    lemma_block_children_extends(b, 0, a2, Seq::empty());
}

pub proof fn lemma_block_children_extends(
    b: BlockDecl,
    i: int,
    acc: ItemTreeView,
    ids: Seq<u32>,
)
    ensures
        extends(acc, lower_block_children_s(b, i, acc, ids).0),
    decreases b, 0nat, b.blocks@.len() - i,
{
    if 0 <= i < b.blocks@.len() {
        let (a1, id) = lower_block_s(b.blocks@[i], acc);
        lemma_block_extends(b.blocks@[i], acc);
        lemma_block_children_extends(b, i + 1, a1, ids.push(id));
    }
}

pub proof fn lemma_module_item_extends(
    item: ModuleItem,
    acc: ItemTreeView,
    scope: Seq<BlockScopeItem>,
)
    ensures
        extends(acc, lower_module_item_s(item, acc, scope).0),
    decreases item, 2nat, 0nat,
{
    match item {
        ModuleItem::Block(b) => {
            lemma_block_extends(b, acc);
        },
        _ => {},
    }
}

pub proof fn lemma_module_items_extends(
    m: ModuleDecl,
    i: int,
    acc: ItemTreeView,
    scope: Seq<BlockScopeItem>,
)
    ensures
        extends(acc, lower_module_items_s(m, i, acc, scope).0),
    decreases m, 2nat, m.items@.len() - i,
{
    if 0 <= i < m.items@.len() {
        let (a1, s1) = lower_module_item_s(m.items@[i], acc, scope);
        lemma_module_item_extends(m.items@[i], acc, scope);
        lemma_module_items_extends(m, i + 1, a1, s1);
    }
}

pub proof fn lemma_module_extends(m: ModuleDecl, acc: ItemTreeView)
    ensures
        extends(acc, lower_module_s(m, acc)),
    decreases m, 3nat, 0nat,
{
    let a1 = lower_ports_s(m.head_ports@, acc);
    lemma_module_items_extends(m, 0, a1, Seq::empty());
}

pub proof fn lemma_root_extends(item: RootDecl, acc: ItemTreeView)
    ensures
        extends(acc, lower_root_s(item, acc)),
    decreases item, 4nat, 0nat,
{
    match item {
        RootDecl::Module(m) => lemma_module_extends(m, acc),
        RootDecl::Nature(n) => {},
        RootDecl::Discipline(d) => {},
    }
}

pub proof fn lemma_build_items_extends(file: SourceFile, i: int, acc: ItemTreeView)
    ensures
        extends(acc, build_items_s(file, i, acc)),
    decreases file, 5nat, file.items@.len() - i,
{
    if 0 <= i < file.items@.len() {
        lemma_root_extends(file.items@[i], acc);
        lemma_build_items_extends(file, i + 1, lower_root_s(file.items@[i], acc));
    }
}

fn clone_string(s: &String) -> (r: String)
    ensures
        r == *s,
{
    s.clone()
}

fn clone_opt_string(o: &Option<String>) -> (r: Option<String>)
    ensures
        r == *o,
{
    match o {
        Some(s) => Some(clone_string(s)),
        None => None,
    }
}

fn clone_names(v: &Vec<String>) -> (r: Vec<String>)
    ensures
        r@ == v@,
{
    let mut out: Vec<String> = Vec::new();
    let mut i: usize = 0;
    while i < v.len()
        invariant
            i <= v@.len(),
            out@ == v@.take(i as int),
        decreases v@.len() - i,
    {
        out.push(clone_string(&v[i]));
        proof {
            assert(out@ =~= v@.take(i + 1 as int));
        }
        i += 1;
    }
    proof {
        assert(v@.take(v@.len() as int) =~= v@);
    }
    out
}

fn lower_port(p: &PortDecl) -> (r: Port)
    ensures
        r == port_rec(*p),
{
    Port {
        name: clone_string(&p.name),
        discipline: clone_opt_string(&p.discipline),
        is_input: p.is_input,
        is_output: p.is_output,
        ast_id: p.ast_id,
    }
}

fn push_ports(tree: &mut ItemTree, ps: &Vec<PortDecl>)
    requires
        old(tree)@.ports.len() + ps@.len() <= u32::MAX,
    ensures
        final(tree)@ == lower_ports_s(ps@, old(tree)@),
{
    let ghost entry = tree@;
    let mut j: usize = 0;
    while j < ps.len()
        invariant
            j <= ps@.len(),
            entry.ports.len() + ps@.len() <= u32::MAX,
            tree@ == lower_ports_s(ps@.take(j as int), entry),
        decreases ps@.len() - j,
    {
        let port = lower_port(&ps[j]);
        tree.data.ports.push(port);
        proof {
            assert(ps@.take(j + 1 as int) =~= ps@.take(j as int).push(ps@[j as int]));
            assert(tree@.ports =~= lower_ports_s(ps@.take(j + 1 as int), entry).ports);
            assert(tree@ =~= lower_ports_s(ps@.take(j + 1 as int), entry));
        }
        j += 1;
    }
    proof {
        assert(ps@.take(ps@.len() as int) =~= ps@);
    }
}

fn push_params(tree: &mut ItemTree, ps: &Vec<ParamDecl>)
    requires
        old(tree)@.parameters.len() + ps@.len() <= u32::MAX,
    ensures
        final(tree)@ == lower_params_s(ps@, old(tree)@),
{
    let ghost entry = tree@;
    let mut j: usize = 0;
    while j < ps.len()
        invariant
            j <= ps@.len(),
            entry.parameters.len() + ps@.len() <= u32::MAX,
            tree@ == lower_params_s(ps@.take(j as int), entry),
        decreases ps@.len() - j,
    {
        let p = &ps[j];
        let rec = Param { name: clone_string(&p.name), ty: p.ty, ast_id: p.ast_id };
        tree.data.parameters.push(rec);
        proof {
            assert(ps@.take(j + 1 as int) =~= ps@.take(j as int).push(ps@[j as int]));
            assert(tree@.parameters =~= lower_params_s(ps@.take(j + 1 as int), entry).parameters);
            assert(tree@ =~= lower_params_s(ps@.take(j + 1 as int), entry));
        }
        j += 1;
    }
    proof {
        assert(ps@.take(ps@.len() as int) =~= ps@);
    }
}

fn push_vars(tree: &mut ItemTree, vs: &Vec<VarDecl>)
    requires
        old(tree)@.variables.len() + vs@.len() <= u32::MAX,
    ensures
        final(tree)@ == lower_vars_s(vs@, old(tree)@),
{
    let ghost entry = tree@;
    let mut j: usize = 0;
    while j < vs.len()
        invariant
            j <= vs@.len(),
            entry.variables.len() + vs@.len() <= u32::MAX,
            tree@ == lower_vars_s(vs@.take(j as int), entry),
        decreases vs@.len() - j,
    {
        let v = &vs[j];
        let rec = Var { name: clone_string(&v.name), ty: v.ty, ast_id: v.ast_id };
        tree.data.variables.push(rec);
        proof {
            assert(vs@.take(j + 1 as int) =~= vs@.take(j as int).push(vs@[j as int]));
            assert(tree@.variables =~= lower_vars_s(vs@.take(j + 1 as int), entry).variables);
            assert(tree@ =~= lower_vars_s(vs@.take(j + 1 as int), entry));
        }
        j += 1;
    }
    proof {
        assert(vs@.take(vs@.len() as int) =~= vs@);
    }
}

fn push_args(tree: &mut ItemTree, args: &Vec<FunctionArgDecl>)
    requires
        old(tree)@.function_args.len() + args@.len() <= u32::MAX,
    ensures
        final(tree)@ == lower_args_s(args@, old(tree)@),
{
    let ghost entry = tree@;
    let mut j: usize = 0;
    while j < args.len()
        invariant
            j <= args@.len(),
            entry.function_args.len() + args@.len() <= u32::MAX,
            tree@ == lower_args_s(args@.take(j as int), entry),
        decreases args@.len() - j,
    {
        let a = &args[j];
        let rec = FunctionArg {
            name: clone_string(&a.name),
            is_input: a.is_input,
            is_output: a.is_output,
            ast_id: a.ast_id,
        };
        tree.data.function_args.push(rec);
        proof {
            assert(args@.take(j + 1 as int) =~= args@.take(j as int).push(args@[j as int]));
            assert(tree@.function_args =~= lower_args_s(
                args@.take(j + 1 as int),
                entry,
            ).function_args);
            assert(tree@ =~= lower_args_s(args@.take(j + 1 as int), entry));
        }
        j += 1;
    }
    proof {
        assert(args@.take(args@.len() as int) =~= args@);
    }
}

fn push_nature_attrs(tree: &mut ItemTree, attrs: &Vec<AttrDecl>)
    requires
        old(tree)@.nature_attrs.len() + attrs@.len() <= u32::MAX,
    ensures
        final(tree)@ == lower_nature_attrs_s(attrs@, old(tree)@),
{
    let ghost entry = tree@;
    let mut j: usize = 0;
    while j < attrs.len()
        invariant
            j <= attrs@.len(),
            entry.nature_attrs.len() + attrs@.len() <= u32::MAX,
            tree@ == lower_nature_attrs_s(attrs@.take(j as int), entry),
        decreases attrs@.len() - j,
    {
        let a = &attrs[j];
        let rec = NatureAttr { name: clone_string(&a.name), ast_id: a.ast_id };
        tree.data.nature_attrs.push(rec);
        proof {
            assert(attrs@.take(j + 1 as int) =~= attrs@.take(j as int).push(attrs@[j as int]));
            assert(tree@.nature_attrs =~= lower_nature_attrs_s(
                attrs@.take(j + 1 as int),
                entry,
            ).nature_attrs);
            assert(tree@ =~= lower_nature_attrs_s(attrs@.take(j + 1 as int), entry));
        }
        j += 1;
    }
    proof {
        assert(attrs@.take(attrs@.len() as int) =~= attrs@);
    }
}

fn push_discipline_attrs(tree: &mut ItemTree, attrs: &Vec<AttrDecl>)
    requires
        old(tree)@.discipline_attrs.len() + attrs@.len() <= u32::MAX,
    ensures
        final(tree)@ == lower_discipline_attrs_s(attrs@, old(tree)@),
{
    let ghost entry = tree@;
    let mut j: usize = 0;
    while j < attrs.len()
        invariant
            j <= attrs@.len(),
            entry.discipline_attrs.len() + attrs@.len() <= u32::MAX,
            tree@ == lower_discipline_attrs_s(attrs@.take(j as int), entry),
        decreases attrs@.len() - j,
    {
        let a = &attrs[j];
        let rec = DisciplineAttr { name: clone_string(&a.name), ast_id: a.ast_id };
        tree.data.discipline_attrs.push(rec);
        proof {
            assert(attrs@.take(j + 1 as int) =~= attrs@.take(j as int).push(attrs@[j as int]));
            assert(tree@.discipline_attrs =~= lower_discipline_attrs_s(
                attrs@.take(j + 1 as int),
                entry,
            ).discipline_attrs);
            assert(tree@ =~= lower_discipline_attrs_s(attrs@.take(j + 1 as int), entry));
        }
        j += 1;
    }
    proof {
        assert(attrs@.take(attrs@.len() as int) =~= attrs@);
    }
}

fn lower_function(tree: &mut ItemTree, f: &FunctionDecl)
    requires
        bounded(lower_function_s(*f, old(tree)@)),
    ensures
        final(tree)@ == lower_function_s(*f, old(tree)@),
{
    let ghost entry = tree@;
    let ghost a1 = lower_args_s(f.args@, entry);
    let ghost a2 = lower_params_s(f.params@, a1);
    let ghost a3 = lower_vars_s(f.vars@, a2);
    let args_start = tree.data.function_args.next_id();
    push_args(tree, &f.args);
    let args_end = tree.data.function_args.next_id();
    let params_start = tree.data.parameters.next_id();
    push_params(tree, &f.params);
    let params_end = tree.data.parameters.next_id();
    let vars_start = tree.data.variables.next_id();
    push_vars(tree, &f.vars);
    let vars_end = tree.data.variables.next_id();
    let rec = Function {
        name: clone_string(&f.name),
        ty: f.ty,
        args: IdRange::new(args_start, args_end),
        params: IdRange::new(params_start, params_end),
        vars: IdRange::new(vars_start, vars_end),
        ast_id: f.ast_id,
    };
    tree.data.functions.push(rec);
    proof {
        assert(tree@ =~= lower_function_s(*f, entry));
    }
}

fn lower_nature(tree: &mut ItemTree, n: &NatureDecl)
    requires
        bounded(lower_nature_s(*n, old(tree)@)),
    ensures
        final(tree)@ == lower_nature_s(*n, old(tree)@),
{
    let ghost entry = tree@;
    let attrs_start = tree.data.nature_attrs.next_id();
    push_nature_attrs(tree, &n.attrs);
    let attrs_end = tree.data.nature_attrs.next_id();
    let rec = Nature {
        name: clone_string(&n.name),
        parent: clone_opt_string(&n.parent),
        access: clone_opt_string(&n.access),
        ddt_nature: clone_opt_string(&n.ddt_nature),
        idt_nature: clone_opt_string(&n.idt_nature),
        attrs: IdRange::new(attrs_start, attrs_end),
        ast_id: n.ast_id,
    };
    tree.data.natures.push(rec);
    proof {
        assert(tree@ =~= lower_nature_s(*n, entry));
    }
}

fn lower_discipline(tree: &mut ItemTree, d: &DisciplineDecl)
    requires
        bounded(lower_discipline_s(*d, old(tree)@)),
    ensures
        final(tree)@ == lower_discipline_s(*d, old(tree)@),
{
    let ghost entry = tree@;
    let attrs_start = tree.data.discipline_attrs.next_id();
    push_discipline_attrs(tree, &d.attrs);
    let attrs_end = tree.data.discipline_attrs.next_id();
    let rec = Discipline {
        name: clone_string(&d.name),
        potential: clone_opt_string(&d.potential),
        flow: clone_opt_string(&d.flow),
        attrs: IdRange::new(attrs_start, attrs_end),
        domain: d.domain,
        ast_id: d.ast_id,
    };
    tree.data.disciplines.push(rec);
    proof {
        assert(tree@ =~= lower_discipline_s(*d, entry));
    }
}

#[verifier::loop_isolation(false)]
fn lower_block(tree: &mut ItemTree, b: &BlockDecl) -> (r: u32)
    requires
        bounded(lower_block_s(*b, old(tree)@).0),
    ensures
        final(tree)@ == lower_block_s(*b, old(tree)@).0,
        r == lower_block_s(*b, old(tree)@).1,
    decreases *b,
{
    let ghost entry = tree@;
    let ghost a1 = lower_params_s(b.params@, entry);
    let ghost a2 = lower_vars_s(b.vars@, a1);
    let ghost a3 = lower_block_children_s(*b, 0, a2, Seq::empty()).0;
    let ghost kids_s = lower_block_children_s(*b, 0, a2, Seq::empty()).1;
    let ghost result = lower_block_s(*b, entry).0;
    proof {
        lemma_block_children_extends(*b, 0, a2, Seq::empty());
    }
    let params_start = tree.data.parameters.next_id();
    push_params(tree, &b.params);
    let params_end = tree.data.parameters.next_id();
    let vars_start = tree.data.variables.next_id();
    push_vars(tree, &b.vars);
    let vars_end = tree.data.variables.next_id();
    let mut kid_ids: Vec<u32> = Vec::new();
    let mut i: usize = 0;
    while i < b.blocks.len()
        invariant
            i <= b.blocks@.len(),
            lower_block_children_s(*b, 0, a2, Seq::empty()) == lower_block_children_s(
                *b,
                i as int,
                tree@,
                kid_ids@,
            ),
            bounded(a3),
        decreases b.blocks@.len() - i,
    {
        proof {
            let a1p = lower_block_s(b.blocks@[i as int], tree@).0;
            let idp = lower_block_s(b.blocks@[i as int], tree@).1;
            lemma_block_extends(b.blocks@[i as int], tree@);
            lemma_block_children_extends(*b, i + 1, a1p, kid_ids@.push(idp));
            assert(lower_block_children_s(*b, i as int, tree@, kid_ids@)
                == lower_block_children_s(*b, i + 1, a1p, kid_ids@.push(idp)));
            assert(a3 == lower_block_children_s(*b, i as int, tree@, kid_ids@).0);
            assert(extends(a1p, a3));
        }
        let id = lower_block(tree, &b.blocks[i]);
        kid_ids.push(id);
        i += 1;
    }
    let id = tree.data.block_scopes.next_id();
    let rec = BlockScope {
        name: clone_string(&b.name),
        parameters: IdRange::new(params_start, params_end),
        variables: IdRange::new(vars_start, vars_end),
        scopes: kid_ids,
        ast_id: b.ast_id,
    };
    tree.data.block_scopes.push(rec);
    proof {
        assert(tree@ =~= result);
    }
    id
}

#[verifier::loop_isolation(false)]
fn lower_module_items(tree: &mut ItemTree, m: &ModuleDecl) -> (r: Vec<BlockScopeItem>)
    requires
        bounded(lower_module_items_s(*m, 0, old(tree)@, Seq::empty()).0),
    ensures
        final(tree)@ == lower_module_items_s(*m, 0, old(tree)@, Seq::empty()).0,
        r@ == lower_module_items_s(*m, 0, old(tree)@, Seq::empty()).1,
{
    let ghost entry = tree@;
    let ghost result_v = lower_module_items_s(*m, 0, entry, Seq::empty()).0;
    let mut scope: Vec<BlockScopeItem> = Vec::new();
    let mut i: usize = 0;
    while i < m.items.len()
        invariant
            i <= m.items@.len(),
            lower_module_items_s(*m, 0, entry, Seq::empty()) == lower_module_items_s(
                *m,
                i as int,
                tree@,
                scope@,
            ),
            bounded(result_v),
            result_v == lower_module_items_s(*m, 0, entry, Seq::empty()).0,
        decreases m.items@.len() - i,
    {
        proof {
            let (a1, s1) = lower_module_item_s(m.items@[i as int], tree@, scope@);
            lemma_module_items_extends(*m, i + 1, a1, s1);
            lemma_module_item_extends(m.items@[i as int], tree@, scope@);
        }
        let ghost old_t = tree@;
        let ghost old_s = scope@;
        match &m.items[i] {
            ModuleItem::Port(p) => {
                let port = lower_port(p);
                tree.data.ports.push(port);
                proof {
                    assert(tree@ =~= lower_module_item_s(m.items@[i as int], old_t, scope@).0);
                }
            },
            ModuleItem::Net(n) => {
                let rec = Net {
                    name: clone_string(&n.name),
                    discipline: clone_opt_string(&n.discipline),
                    ast_id: n.ast_id,
                };
                tree.data.nets.push(rec);
                proof {
                    assert(tree@ =~= lower_module_item_s(m.items@[i as int], old_t, scope@).0);
                }
            },
            ModuleItem::Branch(bd) => {
                let rec = Branch { name: clone_string(&bd.name), ast_id: bd.ast_id };
                tree.data.branches.push(rec);
                proof {
                    assert(tree@ =~= lower_module_item_s(m.items@[i as int], old_t, scope@).0);
                }
            },
            ModuleItem::Function(f) => {
                lower_function(tree, f);
            },
            ModuleItem::Param(p) => {
                let id = tree.data.parameters.next_id();
                let rec = Param { name: clone_string(&p.name), ty: p.ty, ast_id: p.ast_id };
                tree.data.parameters.push(rec);
                scope.push(BlockScopeItem::Parameter(id));
                proof {
                    assert(tree@ =~= lower_module_item_s(m.items@[i as int], old_t, old_s).0);
                    assert(scope@ =~= lower_module_item_s(m.items@[i as int], old_t, old_s).1);
                }
            },
            ModuleItem::Var(v) => {
                let id = tree.data.variables.next_id();
                let rec = Var { name: clone_string(&v.name), ty: v.ty, ast_id: v.ast_id };
                tree.data.variables.push(rec);
                scope.push(BlockScopeItem::Variable(id));
                proof {
                    assert(tree@ =~= lower_module_item_s(m.items@[i as int], old_t, old_s).0);
                    assert(scope@ =~= lower_module_item_s(m.items@[i as int], old_t, old_s).1);
                }
            },
            ModuleItem::Block(bd) => {
                let id = lower_block(tree, bd);
                scope.push(BlockScopeItem::Scope(id));
                proof {
                    assert(scope@ =~= lower_module_item_s(m.items@[i as int], old_t, old_s).1);
                }
            },
        }
        i += 1;
    }
    scope
}

fn lower_module(tree: &mut ItemTree, m: &ModuleDecl)
    requires
        bounded(lower_module_s(*m, old(tree)@)),
    ensures
        final(tree)@ == lower_module_s(*m, old(tree)@),
{
    let ghost entry = tree@;
    let ghost a1 = lower_ports_s(m.head_ports@, entry);
    let ghost a2 = lower_module_items_s(*m, 0, a1, Seq::empty()).0;
    let ghost scope_s = lower_module_items_s(*m, 0, a1, Seq::empty()).1;
    let ghost result = lower_module_s(*m, entry);
    proof {
        lemma_module_items_extends(*m, 0, a1, Seq::empty());
    }
    let head_start = tree.data.ports.next_id();
    let nets_start = tree.data.nets.next_id();
    let branches_start = tree.data.branches.next_id();
    let functions_start = tree.data.functions.next_id();
    push_ports(tree, &m.head_ports);
    let head_end = tree.data.ports.next_id();
    let scope_items = lower_module_items(tree, m);
    let body_end = tree.data.ports.next_id();
    let nets_end = tree.data.nets.next_id();
    let branches_end = tree.data.branches.next_id();
    let functions_end = tree.data.functions.next_id();
    let rec = Module {
        name: clone_string(&m.name),
        expected_ports: clone_names(&m.expected_ports),
        head_ports: IdRange::new(head_start, head_end),
        body_ports: IdRange::new(head_end, body_end),
        nets: IdRange::new(nets_start, nets_end),
        branches: IdRange::new(branches_start, branches_end),
        functions: IdRange::new(functions_start, functions_end),
        scope_items,
        ast_id: m.ast_id,
    };
    tree.data.modules.push(rec);
    proof {
        assert(tree@ =~= result);
    }
}

fn lower_root(tree: &mut ItemTree, item: &RootDecl)
    requires
        bounded(lower_root_s(*item, old(tree)@)),
    ensures
        final(tree)@ == lower_root_s(*item, old(tree)@),
{
    let ghost entry = tree@;
    match item {
        RootDecl::Module(m) => {
            proof {
                lemma_module_extends(*m, entry);
            }
            let id = tree.data.modules.next_id();
            lower_module(tree, m);
            tree.top_level.push(RootItem::Module(id));
            proof {
                assert(tree@ =~= lower_root_s(*item, entry));
            }
        },
        RootDecl::Nature(n) => {
            let id = tree.data.natures.next_id();
            lower_nature(tree, n);
            tree.top_level.push(RootItem::Nature(id));
            proof {
                assert(tree@ =~= lower_root_s(*item, entry));
            }
        },
        RootDecl::Discipline(d) => {
            let id = tree.data.disciplines.next_id();
            lower_discipline(tree, d);
            tree.top_level.push(RootItem::Discipline(id));
            proof {
                assert(tree@ =~= lower_root_s(*item, entry));
            }
        },
    }
}

/// Builds the per-file item tree in one pass over the declarations, in
/// document order. The result is a pure function of the input syntax tree:
/// nothing besides `file` flows into it.
#[verifier::loop_isolation(false)]
pub fn build_item_tree(file: &SourceFile) -> (r: ItemTree)
    requires
        bounded(build_spec(*file)),
    ensures
        r@ == build_spec(*file),
{
    let mut tree = ItemTree {
        top_level: Vec::new(),
        data: ItemTreeData {
            modules: Arena::new(),
            disciplines: Arena::new(),
            natures: Arena::new(),
            nature_attrs: Arena::new(),
            discipline_attrs: Arena::new(),
            variables: Arena::new(),
            parameters: Arena::new(),
            nets: Arena::new(),
            ports: Arena::new(),
            branches: Arena::new(),
            functions: Arena::new(),
            function_args: Arena::new(),
            block_scopes: Arena::new(),
        },
    };
    proof {
        assert(tree@ =~= empty_view());
    }
    let mut i: usize = 0;
    while i < file.items.len()
        invariant
            i <= file.items@.len(),
            build_spec(*file) == build_items_s(*file, i as int, tree@),
            bounded(build_spec(*file)),
        decreases file.items@.len() - i,
    {
        proof {
            lemma_build_items_extends(*file, i + 1, lower_root_s(file.items@[i as int], tree@));
            lemma_root_extends(file.items@[i as int], tree@);
        }
        lower_root(&mut tree, &file.items[i]);
        i += 1;
    }
    tree
}

} // verus!
