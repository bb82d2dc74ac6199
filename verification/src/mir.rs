use vstd::prelude::*;
use crate::span::Span;

verus! {

/// Dense handles into the MIR's arenas and the circuit graph.
pub type RealExprId = u32;

pub type IntExprId = u32;

pub type StrExprId = u32;

pub type VariableId = u32;

pub type ParameterId = u32;

pub type BranchId = u32;

pub type NetId = u32;

pub type PortId = u32;

pub type StatementId = u32;

#[derive(Clone, Copy, PartialEq, Eq, Structural, Debug)]
pub enum RealBinaryOperator {
    Sum,
    Subtract,
    Multiply,
    Divide,
    Exponent,
    Modulus,
}

#[derive(Clone, Copy, PartialEq, Eq, Structural, Debug)]
pub enum IntegerBinaryOperator {
    Sum,
    Subtract,
    Multiply,
    Divide,
    Exponent,
    Modulus,
    ShiftLeft,
    ShiftRight,
    Xor,
    NXor,
    And,
    Or,
    LogicOr,
    LogicAnd,
}

#[derive(Clone, Copy, PartialEq, Eq, Structural, Debug)]
pub enum ComparisonOperator {
    LessThan,
    LessEqual,
    GreaterThan,
    GreaterEqual,
    LogicEqual,
    LogicNotEqual,
}

#[derive(Clone, Copy, PartialEq, Eq, Structural, Debug)]
pub enum UnaryOperator {
    BitNegate,
    LogicNegate,
    ArithmeticNegate,
    ExplicitPositive,
}

#[derive(Clone, Copy, PartialEq, Eq, Structural, Debug)]
pub enum BuiltInFunctionCall1p {
    Sqrt,
    Exp,
    Ln,
    Log,
    Abs,
    Floor,
    Ceil,
    Sin,
    Cos,
    Tan,
    ArcSin,
    ArcCos,
    ArcTan,
    SinH,
    CosH,
    TanH,
    ArcSinH,
    ArcCosH,
    ArcTanH,
}

#[derive(Clone, Copy, PartialEq, Eq, Structural, Debug)]
pub enum BuiltInFunctionCall2p {
    Pow,
    Hypot,
    ArcTan2,
    Max,
    Min,
}

#[derive(Clone, Copy, PartialEq, Eq, Structural, Debug)]
pub enum DisciplineAccess {
    Potential,
    Flow,
}

/// A noise source read by a real expression; opaque to constant folding.
#[derive(Clone, Copy, PartialEq, Eq, Structural, Debug)]
pub enum NoiseSource {
    White(RealExprId),
    Flicker(RealExprId, RealExprId),
}

/// Real-sorted expressions. Literals carry the bit pattern of their
/// IEEE 754 binary64 value.
#[derive(Clone, Copy, PartialEq, Eq, Structural, Debug)]
pub enum RealExpression {
    Literal(u64),
    BinaryOperator(RealExprId, RealBinaryOperator, RealExprId),
    Negate(RealExprId),
    Condition(IntExprId, RealExprId, RealExprId),
    VariableReference(VariableId),
    ParameterReference(ParameterId),
    BranchAccess(DisciplineAccess, BranchId, u8),
    Noise(NoiseSource, Option<StrExprId>),
    BuiltInFunctionCall1p(BuiltInFunctionCall1p, RealExprId),
    BuiltInFunctionCall2p(BuiltInFunctionCall2p, RealExprId, RealExprId),
    Temperature,
    SimParam(StrExprId, Option<RealExprId>),
    IntegerConversion(IntExprId),
}

/// Integer-sorted expressions over two's-complement 64-bit values.
#[derive(Clone, Copy, PartialEq, Eq, Structural, Debug)]
pub enum IntegerExpression {
    Literal(i64),
    BinaryOperator(IntExprId, IntegerBinaryOperator, IntExprId),
    UnaryOperator(UnaryOperator, IntExprId),
    Condition(IntExprId, IntExprId, IntExprId),
    IntegerComparison(IntExprId, ComparisonOperator, IntExprId),
    RealComparison(RealExprId, ComparisonOperator, RealExprId),
    VariableReference(VariableId),
    ParameterReference(ParameterId),
    RealCast(RealExprId),
    PortConnected(PortId),
    ParamGiven(ParameterId),
    PortReference(PortId),
    NetReference(NetId),
    StringEq(StrExprId, StrExprId),
    StringNEq(StrExprId, StrExprId),
    Min(IntExprId, IntExprId),
    Max(IntExprId, IntExprId),
    Abs(IntExprId),
}

/// String-sorted expressions.
#[derive(Clone, PartialEq, Eq, Debug)]
pub enum StringExpression {
    Literal(String),
    Condition(IntExprId, StrExprId, StrExprId),
    VariableReference(VariableId),
    ParameterReference(ParameterId),
    SimParam(StrExprId),
}

/// An arena entry: the expression's contents, its source span, and its
/// allocation stamp. Stamps grow with every allocation across all three
/// arenas, so every subexpression carries a smaller stamp than its parent;
/// rewrites replace contents but never stamps.
pub struct Node<T> {
    pub contents: T,
    pub span: Span,
    pub ord: u32,
}

/// The circuit unknowns a derivative can be taken against.
#[derive(Clone, Copy, PartialEq, Eq, Structural, Debug)]
pub enum Unknown {
    NodePotential(NetId),
    BranchPotential(NetId, NetId),
    Flow(BranchId),
    Parameter(ParameterId),
}

#[derive(Clone, Copy, PartialEq, Eq, Structural, Debug)]
pub enum ExpressionId {
    Real(RealExprId),
    Integer(IntExprId),
    Str(StrExprId),
}

/// A straight-line statement: an assignment, or a call whose return value
/// is discarded. The attribute handle is opaque at this level.
#[derive(Clone, Copy, PartialEq, Eq, Structural, Debug)]
pub enum Statement {
    Assignment(u32, VariableId, ExpressionId),
    Call(u32),
}

/// The three sorted expression arenas.
pub struct ExprArenas {
    pub reals: Vec<Node<RealExpression>>,
    pub ints: Vec<Node<IntegerExpression>>,
    pub strs: Vec<Node<StringExpression>>,
    pub next_ord: u32,
}

/// Mathematical content of the arenas.
#[verifier::ext_equal]
pub ghost struct ExprView {
    pub reals: Seq<Node<RealExpression>>,
    pub ints: Seq<Node<IntegerExpression>>,
    pub strs: Seq<Node<StringExpression>>,
    pub next_ord: u32,
}

impl View for ExprArenas {
    type V = ExprView;

    open spec fn view(&self) -> ExprView {
        ExprView {
            reals: self.reals@,
            ints: self.ints@,
            strs: self.strs@,
            next_ord: self.next_ord,
        }
    }
}

/// A real child handle is valid and carries a smaller stamp than `bound`.
pub open spec fn rex_ok(st: ExprView, e: RealExprId, bound: u32) -> bool {
    e < st.reals.len() && st.reals[e as int].ord < bound
}

pub open spec fn iex_ok(st: ExprView, e: IntExprId, bound: u32) -> bool {
    e < st.ints.len() && st.ints[e as int].ord < bound
}

pub open spec fn sex_ok(st: ExprView, e: StrExprId, bound: u32) -> bool {
    e < st.strs.len() && st.strs[e as int].ord < bound
}

pub open spec fn real_contents_wf(st: ExprView, c: RealExpression, bound: u32) -> bool {
    match c {
        RealExpression::Literal(_) => true,
        RealExpression::BinaryOperator(l, _, r) => rex_ok(st, l, bound) && rex_ok(st, r, bound),
        RealExpression::Negate(a) => rex_ok(st, a, bound),
        RealExpression::Condition(c0, t, f) => iex_ok(st, c0, bound) && rex_ok(st, t, bound)
            && rex_ok(st, f, bound),
        RealExpression::VariableReference(_) => true,
        RealExpression::ParameterReference(_) => true,
        RealExpression::BranchAccess(_, _, _) => true,
        RealExpression::Noise(src, name) => {
            &&& match src {
                NoiseSource::White(a) => rex_ok(st, a, bound),
                NoiseSource::Flicker(a, b) => rex_ok(st, a, bound) && rex_ok(st, b, bound),
            }
            &&& match name {
                Some(n) => sex_ok(st, n, bound),
                None => true,
            }
        },
        RealExpression::BuiltInFunctionCall1p(_, a) => rex_ok(st, a, bound),
        RealExpression::BuiltInFunctionCall2p(_, a, b) => rex_ok(st, a, bound) && rex_ok(
            st,
            b,
            bound,
        ),
        RealExpression::Temperature => true,
        RealExpression::SimParam(n, d) => sex_ok(st, n, bound) && match d {
            Some(e) => rex_ok(st, e, bound),
            None => true,
        },
        RealExpression::IntegerConversion(a) => iex_ok(st, a, bound),
    }
}

pub open spec fn int_contents_wf(st: ExprView, c: IntegerExpression, bound: u32) -> bool {
    match c {
        IntegerExpression::Literal(_) => true,
        IntegerExpression::BinaryOperator(l, _, r) => iex_ok(st, l, bound) && iex_ok(st, r, bound),
        IntegerExpression::UnaryOperator(_, a) => iex_ok(st, a, bound),
        IntegerExpression::Condition(c0, t, f) => iex_ok(st, c0, bound) && iex_ok(st, t, bound)
            && iex_ok(st, f, bound),
        IntegerExpression::IntegerComparison(l, _, r) => iex_ok(st, l, bound) && iex_ok(
            st,
            r,
            bound,
        ),
        IntegerExpression::RealComparison(l, _, r) => rex_ok(st, l, bound) && rex_ok(st, r, bound),
        IntegerExpression::VariableReference(_) => true,
        IntegerExpression::ParameterReference(_) => true,
        IntegerExpression::RealCast(a) => rex_ok(st, a, bound),
        IntegerExpression::PortConnected(_) => true,
        IntegerExpression::ParamGiven(_) => true,
        IntegerExpression::PortReference(_) => true,
        IntegerExpression::NetReference(_) => true,
        IntegerExpression::StringEq(l, r) => sex_ok(st, l, bound) && sex_ok(st, r, bound),
        IntegerExpression::StringNEq(l, r) => sex_ok(st, l, bound) && sex_ok(st, r, bound),
        IntegerExpression::Min(l, r) => iex_ok(st, l, bound) && iex_ok(st, r, bound),
        IntegerExpression::Max(l, r) => iex_ok(st, l, bound) && iex_ok(st, r, bound),
        IntegerExpression::Abs(a) => iex_ok(st, a, bound),
    }
}

pub open spec fn str_contents_wf(st: ExprView, c: StringExpression, bound: u32) -> bool {
    match c {
        StringExpression::Literal(_) => true,
        StringExpression::Condition(c0, t, f) => iex_ok(st, c0, bound) && sex_ok(st, t, bound)
            && sex_ok(st, f, bound),
        StringExpression::VariableReference(_) => true,
        StringExpression::ParameterReference(_) => true,
        StringExpression::SimParam(n) => sex_ok(st, n, bound),
    }
}

/// Every node's children exist and carry strictly smaller stamps, and all
/// stamps lie below the allocation counter.
pub open spec fn exprs_wf(st: ExprView) -> bool {
    &&& forall|i: int|
        0 <= i < st.reals.len() ==> #[trigger] real_contents_wf(
            st,
            st.reals[i].contents,
            st.reals[i].ord,
        ) && st.reals[i].ord < st.next_ord
    &&& forall|i: int|
        0 <= i < st.ints.len() ==> #[trigger] int_contents_wf(
            st,
            st.ints[i].contents,
            st.ints[i].ord,
        ) && st.ints[i].ord < st.next_ord
    &&& forall|i: int|
        0 <= i < st.strs.len() ==> #[trigger] str_contents_wf(
            st,
            st.strs[i].contents,
            st.strs[i].ord,
        ) && st.strs[i].ord < st.next_ord
}

impl ExprArenas {
    pub fn new() -> (r: ExprArenas)
        ensures
            r@.reals =~= Seq::<Node<RealExpression>>::empty(),
            r@.ints =~= Seq::<Node<IntegerExpression>>::empty(),
            r@.strs =~= Seq::<Node<StringExpression>>::empty(),
            r@.next_ord == 0,
            exprs_wf(r@),
    {
        ExprArenas { reals: Vec::new(), ints: Vec::new(), strs: Vec::new(), next_ord: 0 }
    }

    /// Appends a real node whose children must already stand in the arenas.
    pub fn push_real(&mut self, contents: RealExpression, span: Span) -> (r: RealExprId)
        requires
            exprs_wf(old(self)@),
            real_contents_wf(old(self)@, contents, old(self)@.next_ord),
            old(self)@.next_ord < u32::MAX,
            old(self)@.reals.len() < u32::MAX,
        ensures
            final(self)@.reals == old(self)@.reals.push(
                Node { contents, span, ord: old(self)@.next_ord },
            ),
            final(self)@.ints == old(self)@.ints,
            final(self)@.strs == old(self)@.strs,
            final(self)@.next_ord == old(self)@.next_ord + 1,
            r == old(self)@.reals.len(),
            exprs_wf(final(self)@),
    {
        let r = self.reals.len() as u32;
        let ord = self.next_ord;
        self.reals.push(Node { contents, span, ord });
        self.next_ord = self.next_ord + 1;
        proof {
            lemma_wf_grow(old(self)@, self@);
        }
        r
    }

    pub fn push_int(&mut self, contents: IntegerExpression, span: Span) -> (r: IntExprId)
        requires
            exprs_wf(old(self)@),
            int_contents_wf(old(self)@, contents, old(self)@.next_ord),
            old(self)@.next_ord < u32::MAX,
            old(self)@.ints.len() < u32::MAX,
        ensures
            final(self)@.ints == old(self)@.ints.push(
                Node { contents, span, ord: old(self)@.next_ord },
            ),
            final(self)@.reals == old(self)@.reals,
            final(self)@.strs == old(self)@.strs,
            final(self)@.next_ord == old(self)@.next_ord + 1,
            r == old(self)@.ints.len(),
            exprs_wf(final(self)@),
    {
        let r = self.ints.len() as u32;
        let ord = self.next_ord;
        self.ints.push(Node { contents, span, ord });
        self.next_ord = self.next_ord + 1;
        proof {
            lemma_wf_grow(old(self)@, self@);
        }
        r
    }

    pub fn push_str(&mut self, contents: StringExpression, span: Span) -> (r: StrExprId)
        requires
            exprs_wf(old(self)@),
            str_contents_wf(old(self)@, contents, old(self)@.next_ord),
            old(self)@.next_ord < u32::MAX,
            old(self)@.strs.len() < u32::MAX,
        ensures
            final(self)@.strs == old(self)@.strs.push(
                Node { contents, span, ord: old(self)@.next_ord },
            ),
            final(self)@.reals == old(self)@.reals,
            final(self)@.ints == old(self)@.ints,
            final(self)@.next_ord == old(self)@.next_ord + 1,
            r == old(self)@.strs.len(),
            exprs_wf(final(self)@),
    {
        let r = self.strs.len() as u32;
        let ord = self.next_ord;
        self.strs.push(Node { contents, span, ord });
        self.next_ord = self.next_ord + 1;
        proof {
            lemma_wf_grow(old(self)@, self@);
        }
        r
    }

    /// Appends a real node if the arena can still hand out handles;
    /// otherwise leaves everything unchanged.
    pub fn try_push_real(&mut self, contents: RealExpression, span: Span) -> (r: Option<
        RealExprId,
    >)
        requires
            exprs_wf(old(self)@),
            real_contents_wf(old(self)@, contents, old(self)@.next_ord),
        ensures
            exprs_wf(final(self)@),
            final(self)@.ints == old(self)@.ints,
            final(self)@.strs == old(self)@.strs,
            old(self)@.reals.is_prefix_of(final(self)@.reals),
            old(self)@.next_ord <= final(self)@.next_ord,
            match r {
                Some(id) => final(self)@.reals == old(self)@.reals.push(
                    Node { contents, span, ord: old(self)@.next_ord },
                ) && id == old(self)@.reals.len(),
                None => final(self)@ == old(self)@ && (old(self)@.reals.len() >= u32::MAX
                    || old(self)@.next_ord >= u32::MAX),
            },
    {
        if self.reals.len() < 0xFFFFFFFFusize && self.next_ord < u32::MAX {
            let r = self.push_real(contents, span);
            proof {
                assert(old(self)@.reals.is_prefix_of(self@.reals));
            }
            Some(r)
        } else {
            None
        }
    }
}

/// Contents that are well-formed against a state stay well-formed when the
/// arenas grow at the end and the counter does not shrink.
pub proof fn lemma_contents_wf_grow(a: ExprView, b: ExprView)
    requires
        a.reals.len() <= b.reals.len(),
        a.ints.len() <= b.ints.len(),
        a.strs.len() <= b.strs.len(),
        a.next_ord <= b.next_ord,
        forall|i: int| 0 <= i < a.reals.len() ==> b.reals[i] == a.reals[i],
        forall|i: int| 0 <= i < a.ints.len() ==> b.ints[i] == a.ints[i],
        forall|i: int| 0 <= i < a.strs.len() ==> b.strs[i] == a.strs[i],
    ensures
        forall|c: RealExpression, bound: u32|
            real_contents_wf(a, c, bound) ==> #[trigger] real_contents_wf(b, c, bound),
        forall|c: IntegerExpression, bound: u32|
            int_contents_wf(a, c, bound) ==> #[trigger] int_contents_wf(b, c, bound),
        forall|c: StringExpression, bound: u32|
            str_contents_wf(a, c, bound) ==> #[trigger] str_contents_wf(b, c, bound),
{
}

proof fn lemma_wf_grow(a: ExprView, b: ExprView)
    requires
        exprs_wf(a),
        a.next_ord <= b.next_ord,
        a.reals.len() <= b.reals.len(),
        a.ints.len() <= b.ints.len(),
        a.strs.len() <= b.strs.len(),
        b.reals.len() <= a.reals.len() + 1,
        b.ints.len() <= a.ints.len() + 1,
        b.strs.len() <= a.strs.len() + 1,
        forall|i: int| 0 <= i < a.reals.len() ==> b.reals[i] == a.reals[i],
        forall|i: int| 0 <= i < a.ints.len() ==> b.ints[i] == a.ints[i],
        forall|i: int| 0 <= i < a.strs.len() ==> b.strs[i] == a.strs[i],
        forall|i: int|
            a.reals.len() <= i < b.reals.len() ==> real_contents_wf(a, b.reals[i].contents, b.reals[i].ord)
                && b.reals[i].ord < b.next_ord,
        forall|i: int|
            a.ints.len() <= i < b.ints.len() ==> int_contents_wf(a, b.ints[i].contents, b.ints[i].ord)
                && b.ints[i].ord < b.next_ord,
        forall|i: int|
            a.strs.len() <= i < b.strs.len() ==> str_contents_wf(a, b.strs[i].contents, b.strs[i].ord)
                && b.strs[i].ord < b.next_ord,
    ensures
        exprs_wf(b),
{
    lemma_contents_wf_grow(a, b);
    assert forall|i: int| 0 <= i < b.reals.len() implies real_contents_wf(
        b,
        b.reals[i].contents,
        b.reals[i].ord,
    ) && b.reals[i].ord < b.next_ord by {
        if i < a.reals.len() {
            assert(real_contents_wf(a, a.reals[i].contents, a.reals[i].ord));
        } else {
            assert(real_contents_wf(a, b.reals[i].contents, b.reals[i].ord));
        }
    }
    assert forall|i: int| 0 <= i < b.ints.len() implies int_contents_wf(
        b,
        b.ints[i].contents,
        b.ints[i].ord,
    ) && b.ints[i].ord < b.next_ord by {
        if i < a.ints.len() {
            assert(int_contents_wf(a, a.ints[i].contents, a.ints[i].ord));
        } else {
            assert(int_contents_wf(a, b.ints[i].contents, b.ints[i].ord));
        }
    }
    assert forall|i: int| 0 <= i < b.strs.len() implies str_contents_wf(
        b,
        b.strs[i].contents,
        b.strs[i].ord,
    ) && b.strs[i].ord < b.next_ord by {
        if i < a.strs.len() {
            assert(str_contents_wf(a, a.strs[i].contents, a.strs[i].ord));
        } else {
            assert(str_contents_wf(a, b.strs[i].contents, b.strs[i].ord));
        }
    }
}

/// A registered derivative: for the assigned variable, the list of
/// `(unknown, derivative variable)` pairs in registration order.
pub struct DerivativeEntry {
    pub var: VariableId,
    pub targets: Vec<(Unknown, VariableId)>,
}

/// The mid-level IR: the three expression arenas, the statement arena, the
/// register of demanded derivatives, and the resolved branch endpoints.
pub struct Mir {
    pub exprs: ExprArenas,
    pub statements: Vec<Statement>,
    pub derivatives: Vec<DerivativeEntry>,
    /// For each branch handle, its high and low circuit nodes.
    pub branches: Vec<(NetId, NetId)>,
}

/// Every assignment's right-hand side points into the expression arenas.
pub open spec fn stmts_wf(stmts: Seq<Statement>, ex: ExprView) -> bool {
    forall|i: int|
        0 <= i < stmts.len() ==> match #[trigger] stmts[i] {
            Statement::Assignment(_, _, e) => match e {
                ExpressionId::Real(id) => id < ex.reals.len(),
                ExpressionId::Integer(id) => id < ex.ints.len(),
                ExpressionId::Str(id) => id < ex.strs.len(),
            },
            Statement::Call(_) => true,
        }
}

} // verus!
