use vstd::prelude::*;
use crate::mir::StatementId;

verus! {

/// A basic block: its phi statements followed by its straight-line
/// statements, both as handles into the statement arena. Terminators are
/// implied by block adjacency.
pub struct BasicBlock {
    pub phi_statements: Vec<StatementId>,
    pub statements: Vec<StatementId>,
}

/// The control-flow graph of one analog block: basic blocks in layout
/// order.
pub struct ControlFlowGraph {
    pub blocks: Vec<BasicBlock>,
}

impl ControlFlowGraph {
    pub fn new() -> (r: ControlFlowGraph)
        ensures
            r.blocks@.len() == 0,
    {
        ControlFlowGraph { blocks: Vec::new() }
    }
}

} // verus!
