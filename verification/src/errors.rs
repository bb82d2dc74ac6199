use vstd::prelude::*;
use crate::span::Span;
use crate::token::{ArgumentIndex, Token};

verus! {

/// Syntactic positions the parser can report as missing.
#[derive(Debug, Copy, Clone)]
pub enum Expected {
    Identifier,
    PortDeclaration,
    Port,
    ParameterRange,
}

/// Legal constructs this frontend does not support.
#[derive(Clone, Copy, Debug)]
pub enum Unsupported {
    DefaultDiscipline,
    StringParameters,
}

/// The kinds of comma-separated lists that may not contain empty entries.
#[derive(Debug, Clone, Copy)]
pub enum List {
    MacroArgument,
    FunctionArgument,
    Identifier,
}

/// What went wrong, without the source position.
#[derive(Debug, Clone)]
pub enum Type {
    PortRedeclaration,
    EmptyListEntry(List),
    MacroArgumentCount { expected: ArgumentIndex, found: ArgumentIndex },
    ConditionEndWithoutStart,
    MacroEndTooEarly,
    UnclosedConditions(Vec<Span>),
    MacroNotFound,
    MacroRecursion,
    CompilerDirectiveSplit,
    IoErr(String),
    UnexpectedEof { expected: Vec<Token> },
    UnexpectedToken { expected: Vec<Token> },
    UnexpectedTokens { expected: Vec<Expected> },
    Unsupported(Unsupported),
}

/// A diagnostic bound to the source span it arose from.
#[derive(Debug, Clone)]
pub struct Error {
    pub error_type: Type,
    pub source: Span,
}

/// Several diagnostics collected while parsing one construct.
#[derive(Debug)]
pub struct MultiError(pub Vec<Error>);

pub type ParseResult<T> = Result<T, Error>;

pub type MultiResult<T> = Result<T, MultiError>;

impl MultiError {
    /// Appends the errors of `other` after those of `self`.
    pub fn merge(self, other: Self) -> (r: Self)
        ensures
            r.0@ == self.0@ + other.0@,
    {
        let MultiError(mut errors) = self;
        let MultiError(mut other_errors) = other;
        errors.append(&mut other_errors);
        MultiError(errors)
    }

    pub fn add(&mut self, err: Error)
        ensures
            final(self).0@ == old(self).0@.push(err),
    {
        self.0.push(err)
    }
}

/// Keeps `value_res` only when `condition` carries no errors; otherwise the
/// errors of both results are reported together.
pub fn merge_multi_result<T>(value_res: MultiResult<T>, condition: MultiResult<()>) -> (r:
    MultiResult<T>)
    ensures
        match (value_res, condition) {
            (Ok(v), Ok(_)) => r matches Ok(rv) && rv == v,
            (Ok(_), Err(c)) => r matches Err(re) && re.0@ == c.0@,
            (Err(e), Ok(_)) => r matches Err(re) && re.0@ == e.0@,
            (Err(e), Err(c)) => r matches Err(re) && re.0@ == e.0@ + c.0@,
        },
{
    match value_res {
        Ok(res) => match condition {
            Ok(_) => Ok(res),
            Err(err) => Err(err),
        },
        Err(res) => match condition {
            Err(err) => Err(res.merge(err)),
            Ok(_) => Err(res),
        },
    }
}

/// Widens a single-error result to a multi-error result.
pub fn into_multi_res<T>(res: ParseResult<T>) -> (r: MultiResult<T>)
    ensures
        match res {
            Ok(v) => r matches Ok(rv) && rv == v,
            Err(e) => r matches Err(re) && re.0@ == seq![e],
        },
{
    match res {
        Ok(v) => Ok(v),
        Err(err) => Err(MultiError(vec![err])),
    }
}

/// Records one more error against a result, turning a success into a failure.
pub fn add_error<T>(res: MultiResult<T>, error: Error) -> (r: MultiResult<T>)
    ensures
        match res {
            Ok(_) => r matches Err(re) && re.0@ == seq![error],
            Err(e) => r matches Err(re) && re.0@ == e.0@.push(error),
        },
{
    match res {
        Ok(_) => Err(MultiError(vec![error])),
        Err(mut res) => {
            res.add(error);
            Err(res)
        },
    }
}

} // verus!
