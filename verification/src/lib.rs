//! Core analysis and transformation engine of a Verilog-A compiler frontend.
//!
//! The crate models a per-file item tree of declarations, a tri-sorted
//! expression IR with a control-flow graph, a partial constant folder with
//! algebraic identities and overflow lints, symbolic differentiation with
//! Jacobian matrix assembly, and a retain-set based strip pass.

pub mod span;
pub mod idx;
pub mod token;
pub mod errors;
pub mod item_tree;
pub mod syntax;
pub mod item_lower;
pub mod mir;
pub mod realbits;
pub mod fold_spec;
pub mod const_fold;
pub mod derivatives;
pub mod osdi;
pub mod bitset;
pub mod cfg;
pub mod strip;
pub mod matrix;
pub mod parser;
