use vstd::prelude::*;
use crate::errors::{Error, Expected, ParseResult, Type, Unsupported};
use crate::item_tree::Ty;
use crate::span::Span;
use crate::token::Token;

verus! {

/// Bit pattern of positive infinity, the value of the `inf` bound token.
pub const INF_BITS: u64 = 0x7FF0000000000000;

/// Bit pattern of negative infinity.
pub const NEG_INF_BITS: u64 = 0xFFF0000000000000;

/// A primary expression of a parameter declaration: a literal or a name
/// to be resolved later.
#[derive(Clone, Debug)]
pub enum ParamExpr {
    IntLiteral(i64),
    RealLiteral(u64),
    Ident(String),
}

/// One bound of a numerical parameter range.
#[derive(Clone, Copy, PartialEq, Eq, Structural, Debug)]
pub struct NumericalParameterRangeBound {
    pub bound: u32,
    pub inclusive: bool,
}

/// A range between two bounds, each possibly exclusive.
#[derive(Clone, Copy, PartialEq, Eq, Structural, Debug)]
pub struct ParamRange {
    pub start: NumericalParameterRangeBound,
    pub end: NumericalParameterRangeBound,
}

/// An excluded value or range of a parameter declaration.
#[derive(Clone, Copy, PartialEq, Eq, Structural, Debug)]
pub enum NumericalParameterRangeExclude {
    Value(u32),
    Range(ParamRange),
}

/// A parsed parameter declaration.
pub struct Parameter {
    pub name: String,
    pub ty: Ty,
    pub default_value: Option<u32>,
    pub included_ranges: Vec<ParamRange>,
    pub excluded_ranges: Vec<NumericalParameterRangeExclude>,
    pub span: Span,
}

/// What a name declared at parse time stands for.
#[derive(Clone, Copy, PartialEq, Eq, Structural, Debug)]
pub enum SymbolDeclaration {
    Parameter(u32),
}

/// The declarations and expressions the parser builds.
pub struct ParamAst {
    pub expressions: Vec<(ParamExpr, Span)>,
    pub parameters: Vec<Parameter>,
}

/// The recursive-descent parser over a lexed token stream.
pub struct Parser {
    pub tokens: Vec<(Token, Span)>,
    pub pos: usize,
    pub ast: ParamAst,
    pub symbols: Vec<(String, SymbolDeclaration)>,
}

/// The parameter type a type keyword denotes, if it denotes one the
/// numerical grammar accepts.
pub open spec fn numeric_ty_of(t: Token) -> Option<Ty> {
    match t {
        Token::Integer => Some(Ty::Integer),
        Token::Real => Some(Ty::Real),
        Token::Realtime => Some(Ty::Realtime),
        Token::Time => Some(Ty::Time),
        _ => None,
    }
}

/// The primary expression a single token parses to: a literal or a name;
/// `None` for every token the primary grammar rejects.
pub open spec fn token_prim_expr(t: Token) -> Option<ParamExpr> {
    match t {
        Token::IntLiteral(v) => Some(ParamExpr::IntLiteral(v)),
        Token::RealLiteral(b) => Some(ParamExpr::RealLiteral(b)),
        Token::Identifier(s) => Some(ParamExpr::Ident(s)),
        _ => None,
    }
}

/// The bound expression a single token parses to: the infinity keywords
/// stand for the infinite literals, anything else follows the primary
/// grammar.
pub open spec fn token_bound_expr(t: Token) -> Option<ParamExpr> {
    match t {
        Token::Infinity => Some(ParamExpr::RealLiteral(INF_BITS)),
        Token::MinusInfinity => Some(ParamExpr::RealLiteral(NEG_INF_BITS)),
        _ => token_prim_expr(t),
    }
}

fn clone_token(t: &Token) -> (r: Token)
    ensures
        r == *t,
{
    match t {
        Token::Identifier(s) => Token::Identifier(clone_string(s)),
        Token::IntLiteral(v) => Token::IntLiteral(*v),
        Token::RealLiteral(b) => Token::RealLiteral(*b),
        Token::Integer => Token::Integer,
        Token::Real => Token::Real,
        Token::Realtime => Token::Realtime,
        Token::Time => Token::Time,
        Token::LiteralString => Token::LiteralString,
        Token::Parameter => Token::Parameter,
        Token::Semicolon => Token::Semicolon,
        Token::Comma => Token::Comma,
        Token::Colon => Token::Colon,
        Token::Assign => Token::Assign,
        Token::From => Token::From,
        Token::Exclude => Token::Exclude,
        Token::Infinity => Token::Infinity,
        Token::MinusInfinity => Token::MinusInfinity,
        Token::SquareBracketOpen => Token::SquareBracketOpen,
        Token::SquareBracketClose => Token::SquareBracketClose,
        Token::ParenOpen => Token::ParenOpen,
        Token::ParenClose => Token::ParenClose,
    }
}

fn clone_string(s: &String) -> (r: String)
    ensures
        r == *s,
{
    s.clone()
}

impl Parser {
    pub fn new(tokens: Vec<(Token, Span)>) -> (r: Parser)
        ensures
            r.tokens == tokens,
            r.pos == 0,
            r.ast.expressions@.len() == 0,
            r.ast.parameters@.len() == 0,
            r.symbols@.len() == 0,
    {
        Parser {
            tokens,
            pos: 0,
            ast: ParamAst { expressions: Vec::new(), parameters: Vec::new() },
            symbols: Vec::new(),
        }
    }

    /// Consumes and returns the next token.
    pub fn next(&mut self) -> (r: ParseResult<(Token, Span)>)
        ensures
            final(self).tokens == old(self).tokens,
            final(self).ast == old(self).ast,
            final(self).symbols == old(self).symbols,
            final(self).pos >= old(self).pos,
            old(self).pos <= old(self).tokens@.len() ==> final(self).pos <= old(self).tokens@.len(),
            old(self).pos < old(self).tokens@.len() ==> (r matches Ok(t) && t == old(self).tokens@[old(self).pos as int] && final(self).pos == old(self).pos + 1),
            old(self).pos >= old(self).tokens@.len() ==> (r is Err && final(self).pos == old(self).pos),
            r matches Err(e) ==> !(e.error_type is Unsupported),
    {
        if self.pos < self.tokens.len() {
            let t = clone_token(&self.tokens[self.pos].0);
            let span = self.tokens[self.pos].1;
            self.pos = self.pos + 1;
            Ok((t, span))
        } else {
            Err(Error {
                error_type: Type::UnexpectedEof { expected: Vec::new() },
                source: Span::new(0, 0),
            })
        }
    }

    /// Peeks at the next token without consuming it.
    pub fn look_ahead(&self) -> (r: ParseResult<(Token, Span)>)
        ensures
            self.pos < self.tokens@.len() ==> (r matches Ok(t) && t
                == self.tokens@[self.pos as int]),
            self.pos >= self.tokens@.len() ==> r is Err,
            r is Ok ==> self.pos < self.tokens@.len(),
            r matches Err(e) ==> !(e.error_type is Unsupported),
    {
        if self.pos < self.tokens.len() {
            let t = clone_token(&self.tokens[self.pos].0);
            let span = self.tokens[self.pos].1;
            Ok((t, span))
        } else {
            Err(Error {
                error_type: Type::UnexpectedEof { expected: Vec::new() },
                source: Span::new(0, 0),
            })
        }
    }

    fn consume_lookahead(&mut self)
        requires
            old(self).pos < old(self).tokens@.len(),
        ensures
            final(self).pos == old(self).pos + 1,
            final(self).pos <= final(self).tokens@.len(),
            final(self).tokens == old(self).tokens,
            final(self).ast == old(self).ast,
            final(self).symbols == old(self).symbols,
    {
        let n = self.tokens.len();
        self.pos = self.pos + 1;
    }

    /// Parses a primary expression: a literal or an identifier; anything
    /// else is rejected. The parsed expression is appended to the
    /// expression arena and its handle returned.
    pub fn parse_expression_id(&mut self) -> (r: ParseResult<u32>)
        ensures
            final(self).tokens == old(self).tokens,
            final(self).symbols == old(self).symbols,
            final(self).pos >= old(self).pos,
            old(self).pos <= old(self).tokens@.len() ==> final(self).pos <= old(self).tokens@.len(),
            final(self).ast.parameters == old(self).ast.parameters,
            old(self).ast.expressions@.is_prefix_of(final(self).ast.expressions@),
            r matches Ok(id) ==> id < final(self).ast.expressions@.len(),
            r is Err ==> final(self).ast == old(self).ast,
            r matches Ok(id) ==> old(self).pos < old(self).tokens@.len() && match token_prim_expr(
                old(self).tokens@[old(self).pos as int].0,
            ) {
                Some(c) => final(self).ast.expressions@[id as int].0 == c && final(self).pos
                    == old(self).pos + 1,
                None => false,
            },
            old(self).pos < old(self).tokens@.len() && token_prim_expr(
                old(self).tokens@[old(self).pos as int].0,
            ) is None ==> r is Err,
            r matches Err(e) ==> !(e.error_type is Unsupported),
    {
        let (t, span) = match self.next() {
            Ok(t) => t,
            Err(e) => {
                return Err(e);
            },
        };
        let contents = match t {
            Token::IntLiteral(v) => ParamExpr::IntLiteral(v),
            Token::RealLiteral(b) => ParamExpr::RealLiteral(b),
            Token::Identifier(s) => ParamExpr::Ident(s),
            _ => {
                return Err(Error {
                    error_type: Type::UnexpectedToken { expected: Vec::new() },
                    source: span,
                });
            },
        };
        self.push_expr(contents, span)
    }

    fn push_expr(&mut self, contents: ParamExpr, span: Span) -> (r: ParseResult<u32>)
        ensures
            final(self).tokens == old(self).tokens,
            final(self).pos == old(self).pos,
            final(self).symbols == old(self).symbols,
            final(self).ast.parameters == old(self).ast.parameters,
            old(self).ast.expressions@.is_prefix_of(final(self).ast.expressions@),
            r matches Ok(id) ==> id < final(self).ast.expressions@.len() && final(self).ast.expressions@ == old(self).ast.expressions@.push((contents, span)) && id == old(self).ast.expressions@.len(),
            r is Err ==> final(self).ast == old(self).ast,
            r matches Err(e) ==> !(e.error_type is Unsupported),
    {
        if self.ast.expressions.len() < 0xFFFFFFFFusize {
            let id = self.ast.expressions.len() as u32;
            self.ast.expressions.push((contents, span));
            proof {
                assert(old(self).ast.expressions@.is_prefix_of(self.ast.expressions@));
            }
            Ok(id)
        } else {
            Err(Error { error_type: Type::UnexpectedToken { expected: Vec::new() }, source: span })
        }
    }

    /// Parses a range bound expression: the infinity keywords stand for
    /// the infinite bounds, anything else is an ordinary expression.
    pub fn parse_parameter_range_expression(&mut self) -> (r: ParseResult<u32>)
        ensures
            final(self).tokens == old(self).tokens,
            final(self).symbols == old(self).symbols,
            final(self).pos >= old(self).pos,
            old(self).pos <= old(self).tokens@.len() ==> final(self).pos <= old(self).tokens@.len(),
            final(self).ast.parameters == old(self).ast.parameters,
            old(self).ast.expressions@.is_prefix_of(final(self).ast.expressions@),
            r matches Ok(id) ==> id < final(self).ast.expressions@.len(),
            old(self).pos < old(self).tokens@.len() && old(self).tokens@[old(self).pos as int].0
                is Infinity && r is Ok ==> (final(self).ast.expressions@[r->Ok_0 as int].0
                matches ParamExpr::RealLiteral(b) && b == INF_BITS),
            old(self).pos < old(self).tokens@.len() && old(self).tokens@[old(self).pos as int].0
                is MinusInfinity && r is Ok ==> (final(self).ast.expressions@[r->Ok_0 as int].0
                matches ParamExpr::RealLiteral(b) && b == NEG_INF_BITS),
            r matches Ok(id) ==> old(self).pos < old(self).tokens@.len() && match token_bound_expr(
                old(self).tokens@[old(self).pos as int].0,
            ) {
                Some(c) => final(self).ast.expressions@[id as int].0 == c && final(self).pos
                    == old(self).pos + 1,
                None => false,
            },
            old(self).pos < old(self).tokens@.len() && token_bound_expr(
                old(self).tokens@[old(self).pos as int].0,
            ) is None ==> r is Err,
            r matches Err(e) ==> !(e.error_type is Unsupported),
    {
        let (t, span) = match self.look_ahead() {
            Ok(t) => t,
            Err(e) => {
                return Err(e);
            },
        };
        match t {
            Token::Infinity => {
                self.consume_lookahead();
                self.push_expr(ParamExpr::RealLiteral(INF_BITS), span)
            },
            Token::MinusInfinity => {
                self.consume_lookahead();
                self.push_expr(ParamExpr::RealLiteral(NEG_INF_BITS), span)
            },
            _ => self.parse_expression_id(),
        }
    }

    fn expect_colon(&mut self) -> (r: ParseResult<()>)
        ensures
            final(self).tokens == old(self).tokens,
            final(self).ast == old(self).ast,
            final(self).symbols == old(self).symbols,
            final(self).pos >= old(self).pos,
            old(self).pos <= old(self).tokens@.len() ==> final(self).pos <= old(self).tokens@.len(),
            r is Ok ==> old(self).pos < old(self).tokens@.len() && old(self).tokens@[old(self).pos as int].0
                is Colon && final(self).pos == old(self).pos + 1,
            r matches Err(e) ==> !(e.error_type is Unsupported),
    {
        let (t, span) = match self.next() {
            Ok(t) => t,
            Err(e) => {
                return Err(e);
            },
        };
        match t {
            Token::Colon => Ok(()),
            _ => Err(Error {
                error_type: Type::UnexpectedToken { expected: vec![Token::Colon] },
                source: span,
            }),
        }
    }

    /// Parses `bound : bound` followed by the closing bracket, which
    /// decides whether the upper bound is inclusive (`]`) or exclusive
    /// (`)`); the lower bound's inclusiveness was decided by the opening
    /// bracket the caller consumed.
    pub fn parse_parameter_range(&mut self, inclusive: bool) -> (r: ParseResult<ParamRange>)
        ensures
            final(self).tokens == old(self).tokens,
            final(self).symbols == old(self).symbols,
            final(self).pos >= old(self).pos,
            old(self).pos <= old(self).tokens@.len() ==> final(self).pos <= old(self).tokens@.len(),
            final(self).ast.parameters == old(self).ast.parameters,
            old(self).ast.expressions@.is_prefix_of(final(self).ast.expressions@),
            r matches Ok(range) ==> range.start.inclusive == inclusive && range.start.bound
                < final(self).ast.expressions@.len() && range.end.bound < final(self).ast.expressions@.len(),
            r matches Ok(range) ==> ({
                &&& final(self).pos == old(self).pos + 4
                &&& old(self).pos + 4 <= old(self).tokens@.len()
                &&& match token_bound_expr(old(self).tokens@[old(self).pos as int].0) {
                    Some(c) => final(self).ast.expressions@[range.start.bound as int].0 == c,
                    None => false,
                }
                &&& old(self).tokens@[old(self).pos + 1].0 is Colon
                &&& match token_bound_expr(old(self).tokens@[old(self).pos + 2].0) {
                    Some(c) => final(self).ast.expressions@[range.end.bound as int].0 == c,
                    None => false,
                }
                &&& (range.end.inclusive <==> old(self).tokens@[old(self).pos + 3].0
                    is SquareBracketClose)
                &&& (old(self).tokens@[old(self).pos + 3].0 is SquareBracketClose || old(
                    self,
                ).tokens@[old(self).pos + 3].0 is ParenClose)
            }),
            r matches Err(e) ==> !(e.error_type is Unsupported),
    {
        broadcast use crate::derivatives::lemma_prefix_index;

        let start_bound = match self.parse_parameter_range_expression() {
            Ok(b) => b,
            Err(e) => {
                return Err(e);
            },
        };
        match self.expect_colon() {
            Ok(_) => {},
            Err(e) => {
                return Err(e);
            },
        }
        let end_bound = match self.parse_parameter_range_expression() {
            Ok(b) => b,
            Err(e) => {
                return Err(e);
            },
        };
        let (t, span) = match self.next() {
            Ok(t) => t,
            Err(e) => {
                return Err(e);
            },
        };
        let end_inclusive = match t {
            Token::SquareBracketClose => true,
            Token::ParenClose => false,
            _ => {
                return Err(Error {
                    error_type: Type::UnexpectedToken {
                        expected: vec![Token::ParenClose, Token::SquareBracketClose],
                    },
                    source: span,
                });
            },
        };
        Ok(ParamRange {
            start: NumericalParameterRangeBound { bound: start_bound, inclusive },
            end: NumericalParameterRangeBound { bound: end_bound, inclusive: end_inclusive },
        })
    }

    /// Parses one `name [= default] {from range | exclude ...}` item of a
    /// parameter declaration. On success exactly one parameter record is
    /// appended, carrying the consumed identifier and the declared type,
    /// and the name is bound in the symbol table; on failure no parameter
    /// is appended.
    #[verifier::loop_isolation(false)]
    pub fn parse_numerical_parameter_assignment(&mut self, attrs: u32, base_type: Ty) -> (r:
        ParseResult<()>)
        ensures
            final(self).tokens == old(self).tokens,
            old(self).ast.expressions@.is_prefix_of(final(self).ast.expressions@),
            final(self).pos >= old(self).pos,
            old(self).pos <= old(self).tokens@.len() ==> final(self).pos <= old(self).tokens@.len(),
            r is Ok ==> ({
                &&& final(self).ast.parameters@.len() == old(self).ast.parameters@.len() + 1
                &&& old(self).ast.parameters@.is_prefix_of(final(self).ast.parameters@)
                &&& final(self).ast.parameters@.last().ty == base_type
                &&& old(self).pos < old(self).tokens@.len()
                &&& old(self).tokens@[old(self).pos as int].0 matches Token::Identifier(nm)
                    && final(self).ast.parameters@.last().name == nm && final(self).symbols@ == old(self).symbols@.push(
                    (
                        nm,
                        SymbolDeclaration::Parameter(
                            (final(self).ast.parameters@.len() - 1) as u32,
                        ),
                    ),
                )
            }),
            r is Err ==> (final(self).ast.parameters == old(self).ast.parameters && final(self).symbols == old(self).symbols),
            r matches Err(e) ==> !(e.error_type is Unsupported),
    {
        let start = match self.look_ahead() {
            Ok((_, s)) => s,
            Err(e) => {
                return Err(e);
            },
        };
        let (t, name_span) = match self.next() {
            Ok(t) => t,
            Err(e) => {
                return Err(e);
            },
        };
        let name = match t {
            Token::Identifier(s) => s,
            _ => {
                return Err(Error {
                    error_type: Type::UnexpectedTokens { expected: vec![Expected::Identifier] },
                    source: name_span,
                });
            },
        };
        let default_value: Option<u32> = match self.look_ahead() {
            Ok((Token::Assign, _)) => {
                self.consume_lookahead();
                match self.parse_expression_id() {
                    Ok(id) => Some(id),
                    Err(e) => {
                        return Err(e);
                    },
                }
            },
            _ => None,
        };
        let mut included_ranges: Vec<ParamRange> = Vec::new();
        let mut excluded_ranges: Vec<NumericalParameterRangeExclude> = Vec::new();
        let mut last_span = name_span;
        loop
            invariant
                self.tokens == old(self).tokens,
                old(self).ast.expressions@.is_prefix_of(self.ast.expressions@),
                self.ast.parameters == old(self).ast.parameters,
                self.symbols == old(self).symbols,
                self.pos >= old(self).pos,
                self.pos <= self.tokens@.len(),
            decreases self.tokens@.len() + 1 - self.pos,
        {
            if self.pos >= self.tokens.len() {
                return Err(Error {
                    error_type: Type::UnexpectedEof { expected: Vec::new() },
                    source: last_span,
                });
            }
            let (t, span) = match self.look_ahead() {
                Ok(t) => t,
                Err(e) => {
                    return Err(e);
                },
            };
            last_span = span;
            match t {
                Token::From => {
                    self.consume_lookahead();
                    let (t2, span2) = match self.next() {
                        Ok(t) => t,
                        Err(e) => {
                            return Err(e);
                        },
                    };
                    let inclusive = match t2 {
                        Token::SquareBracketOpen => true,
                        Token::ParenOpen => false,
                        _ => {
                            return Err(Error {
                                error_type: Type::UnexpectedTokens {
                                    expected: vec![Expected::ParameterRange],
                                },
                                source: span2,
                            });
                        },
                    };
                    match self.parse_parameter_range(inclusive) {
                        Ok(range) => included_ranges.push(range),
                        Err(e) => {
                            return Err(e);
                        },
                    }
                },
                Token::Exclude => {
                    self.consume_lookahead();
                    let (t2, _) = match self.look_ahead() {
                        Ok(t) => t,
                        Err(e) => {
                            return Err(e);
                        },
                    };
                    match t2 {
                        Token::SquareBracketOpen => {
                            self.consume_lookahead();
                            match self.parse_parameter_range(true) {
                                Ok(range) => excluded_ranges.push(
                                    NumericalParameterRangeExclude::Range(range),
                                ),
                                Err(e) => {
                                    return Err(e);
                                },
                            }
                        },
                        Token::ParenOpen => {
                            self.consume_lookahead();
                            match self.parse_parameter_range(false) {
                                Ok(range) => excluded_ranges.push(
                                    NumericalParameterRangeExclude::Range(range),
                                ),
                                Err(e) => {
                                    return Err(e);
                                },
                            }
                        },
                        _ => {
                            match self.parse_expression_id() {
                                Ok(id) => excluded_ranges.push(
                                    NumericalParameterRangeExclude::Value(id),
                                ),
                                Err(e) => {
                                    return Err(e);
                                },
                            }
                        },
                    }
                },
                Token::Semicolon | Token::Comma => {
                    break ;
                },
                _ => {
                    return Err(Error {
                        error_type: Type::UnexpectedToken {
                            expected: vec![Token::From, Token::Exclude, Token::Semicolon],
                        },
                        source: span,
                    });
                },
            }
        }
        if self.ast.parameters.len() >= 0xFFFFFFFFusize {
            return Err(Error {
                error_type: Type::UnexpectedToken { expected: Vec::new() },
                source: last_span,
            });
        }
        let id = self.ast.parameters.len() as u32;
        let name_copy = clone_string(&name);
        self.ast.parameters.push(
            Parameter {
                name,
                ty: base_type,
                default_value,
                included_ranges,
                excluded_ranges,
                span: start.until(last_span),
            },
        );
        self.symbols.push((name_copy, SymbolDeclaration::Parameter(id)));
        proof {
            assert(old(self).ast.parameters@.is_prefix_of(self.ast.parameters@));
        }
        Ok(())
    }

    /// Parses a whole `parameter` declaration after the keyword: the type
    /// keyword, then one or more comma-separated parameter items, then the
    /// closing semicolon. A string parameter type is legal but
    /// unsupported; any other unexpected token is rejected outright.
    #[verifier::loop_isolation(false)]
    pub fn parse_parameter_decl(&mut self, attrs: u32) -> (r: ParseResult<()>)

        ensures
            final(self).tokens == old(self).tokens,
            old(self).ast.parameters@.is_prefix_of(final(self).ast.parameters@),
            old(self).pos < old(self).tokens@.len() && old(self).tokens@[old(self).pos as int].0
                is LiteralString ==> (r matches Err(e) && e.error_type matches Type::Unsupported(
                u,
            ) && u is StringParameters && e.source == old(self).tokens@[old(self).pos as int].1),
            old(self).pos < old(self).tokens@.len() && numeric_ty_of(
                old(self).tokens@[old(self).pos as int].0,
            ) is None && !(old(self).tokens@[old(self).pos as int].0 is LiteralString) ==> (r
                matches Err(e) && e.error_type is UnexpectedToken),
            r is Ok ==> final(self).ast.parameters@.len() > old(self).ast.parameters@.len() && (
            forall|i: int|
                old(self).ast.parameters@.len() <= i < final(self).ast.parameters@.len() ==> (
                #[trigger] final(self).ast.parameters@[i]).ty == numeric_ty_of(
                    old(self).tokens@[old(self).pos as int].0,
                )->Some_0),
            r matches Err(e) && e.error_type is Unsupported ==> old(self).pos < old(self).tokens@.len()
                && old(self).tokens@[old(self).pos as int].0 is LiteralString,
    {
        broadcast use crate::derivatives::lemma_prefix_index;

        let (t, span) = match self.next() {
            Ok(t) => t,
            Err(e) => {
                return Err(e);
            },
        };
        let parameter_type = match t {
            Token::Integer => Ty::Integer,
            Token::Real => Ty::Real,
            Token::Realtime => Ty::Realtime,
            Token::Time => Ty::Time,
            Token::LiteralString => {
                return Err(Error {
                    error_type: Type::Unsupported(Unsupported::StringParameters),
                    source: span,
                });
            },
            _ => {
                return Err(Error {
                    error_type: Type::UnexpectedToken {
                        expected: vec![
                            Token::Integer,
                            Token::Real,
                            Token::Realtime,
                            Token::Time,
                            Token::LiteralString,
                        ],
                    },
                    source: span,
                });
            },
        };
        match self.parse_numerical_parameter_assignment(attrs, parameter_type) {
            Ok(_) => {},
            Err(e) => {
                return Err(e);
            },
        }
        loop
            invariant
                self.tokens == old(self).tokens,
                old(self).ast.parameters@.is_prefix_of(self.ast.parameters@),
                self.ast.parameters@.len() > old(self).ast.parameters@.len(),
                self.pos <= self.tokens@.len(),
                forall|i: int|
                    old(self).ast.parameters@.len() <= i < self.ast.parameters@.len() ==> (
                    #[trigger] self.ast.parameters@[i]).ty == parameter_type,
            decreases self.tokens@.len() + 1 - self.pos,
        {
            if self.pos >= self.tokens.len() {
                return Err(Error {
                    error_type: Type::UnexpectedEof { expected: vec![Token::Semicolon] },
                    source: span,
                });
            }
            let (t2, span2) = match self.next() {
                Ok(t) => t,
                Err(e) => {
                    return Err(e);
                },
            };
            match t2 {
                Token::Semicolon => {
                    return Ok(());
                },
                Token::Comma => {
                    let ghost params_before = self.ast.parameters@;
                    match self.parse_numerical_parameter_assignment(attrs, parameter_type) {
                        Ok(_) => {
                            proof {
                                assert(params_before.is_prefix_of(self.ast.parameters@));
                            }
                        },
                        Err(e) => {
                            return Err(e);
                        },
                    }
                },
                _ => {
                    return Err(Error {
                        error_type: Type::UnexpectedToken {
                            expected: vec![Token::Comma, Token::Semicolon],
                        },
                        source: span2,
                    });
                },
            }
        }
    }
}

} // verus!
