use vstd::prelude::*;
use crate::item_tree::{Domain, Ty};

verus! {

/// Declarations of a parsed source file, as plain values.
///
/// Every declaration carries the opaque handle of the syntax node it came
/// from; the item tree stores these handles but never dereferences them.
pub struct AttrDecl {
    pub name: String,
    pub ast_id: u32,
}

pub struct NatureDecl {
    pub name: String,
    pub parent: Option<String>,
    pub access: Option<String>,
    pub ddt_nature: Option<String>,
    pub idt_nature: Option<String>,
    pub attrs: Vec<AttrDecl>,
    pub ast_id: u32,
}

pub struct DisciplineDecl {
    pub name: String,
    pub potential: Option<String>,
    pub flow: Option<String>,
    pub domain: Option<Domain>,
    pub attrs: Vec<AttrDecl>,
    pub ast_id: u32,
}

pub struct PortDecl {
    pub name: String,
    pub discipline: Option<String>,
    pub is_input: bool,
    pub is_output: bool,
    pub ast_id: u32,
}

pub struct NetDecl {
    pub name: String,
    pub discipline: Option<String>,
    pub ast_id: u32,
}

pub struct BranchDecl {
    pub name: String,
    pub ast_id: u32,
}

pub struct ParamDecl {
    pub name: String,
    pub ty: Ty,
    pub ast_id: u32,
}

pub struct VarDecl {
    pub name: String,
    pub ty: Ty,
    pub ast_id: u32,
}

pub struct FunctionArgDecl {
    pub name: String,
    pub is_input: bool,
    pub is_output: bool,
    pub ast_id: u32,
}

pub struct FunctionDecl {
    pub name: String,
    pub ty: Ty,
    pub args: Vec<FunctionArgDecl>,
    pub params: Vec<ParamDecl>,
    pub vars: Vec<VarDecl>,
    pub ast_id: u32,
}

/// A named procedural block; blocks may nest.
pub struct BlockDecl {
    pub name: String,
    pub params: Vec<ParamDecl>,
    pub vars: Vec<VarDecl>,
    pub blocks: Vec<BlockDecl>,
    pub ast_id: u32,
}

/// A declaration in a module body, in document order.
pub enum ModuleItem {
    Port(PortDecl),
    Net(NetDecl),
    Branch(BranchDecl),
    Function(FunctionDecl),
    Param(ParamDecl),
    Var(VarDecl),
    Block(BlockDecl),
}

pub struct ModuleDecl {
    pub name: String,
    /// Port names listed in the module header.
    pub expected_ports: Vec<String>,
    /// Ports declared fully in the module header.
    pub head_ports: Vec<PortDecl>,
    pub items: Vec<ModuleItem>,
    pub ast_id: u32,
}

/// A top-level declaration of the file.
pub enum RootDecl {
    Module(ModuleDecl),
    Nature(NatureDecl),
    Discipline(DisciplineDecl),
}

/// The parsed syntax tree of one file, reduced to its declarations.
pub struct SourceFile {
    pub items: Vec<RootDecl>,
}

} // verus!
