use vstd::prelude::*;

verus! {

/// Index of a macro argument within a preprocessor macro call.
pub type ArgumentIndex = u32;

/// Lexed tokens of the Verilog-A surface syntax that the declaration
/// parser consumes. Literal payloads are carried as plain values; a real
/// literal carries the bit pattern of its IEEE 754 double value.
#[derive(Clone, Debug)]
pub enum Token {
    Integer,
    Real,
    Realtime,
    Time,
    LiteralString,
    Identifier(String),
    IntLiteral(i64),
    RealLiteral(u64),
    Parameter,
    Semicolon,
    Comma,
    Colon,
    Assign,
    From,
    Exclude,
    Infinity,
    MinusInfinity,
    SquareBracketOpen,
    SquareBracketClose,
    ParenOpen,
    ParenClose,
}

} // verus!
