use vstd::prelude::*;
use crate::span::Span;
use crate::mir::{
    int_contents_wf, real_contents_wf, str_contents_wf,
    BuiltInFunctionCall1p, BuiltInFunctionCall2p, ComparisonOperator, ExprView, IntExprId,
    IntegerBinaryOperator, IntegerExpression, ParameterId, RealBinaryOperator, RealExprId,
    RealExpression, StrExprId, StringExpression, UnaryOperator, VariableId, exprs_wf,
};
use crate::realbits::{
    abs_bits, add_bits, approx_eq_bits, bits_round_to_int, ceil_bits, div_bits, floor_bits,
    int_to_bits, is_one_bits, is_zero_bits, lt_bits, max_bits, min_bits, mul_bits, neg_bits,
    rem_bits, sub_bits, ONE_BITS, ZERO_BITS,
};

verus! {

/// The non-fatal lint raised by integer division by zero and by integer
/// powers with an exponent beyond the 32-bit range.
#[derive(Clone, Copy, PartialEq, Eq, Structural, Debug)]
pub struct ConstantOverflow {
    pub span: Span,
}

/// Answers constant folding's questions about variables and parameters.
/// `None` means the value is unknown at fold time. The executable methods
/// must agree with the specification functions, so a resolver's answers are
/// a pure function of the resolver value: folding is deterministic.
pub trait ConstResolver: Sized {
    spec fn real_var_spec(&self, var: VariableId) -> Option<u64>;

    spec fn int_var_spec(&self, var: VariableId) -> Option<i64>;

    spec fn str_var_spec(&self, var: VariableId) -> Option<Seq<char>>;

    spec fn real_param_spec(&self, param: ParameterId) -> Option<u64>;

    spec fn int_param_spec(&self, param: ParameterId) -> Option<i64>;

    spec fn str_param_spec(&self, param: ParameterId) -> Option<Seq<char>>;

    fn real_variable_value(&self, var: VariableId) -> (r: Option<u64>)
        ensures
            r == self.real_var_spec(var),
    ;

    fn int_variable_value(&self, var: VariableId) -> (r: Option<i64>)
        ensures
            r == self.int_var_spec(var),
    ;

    fn str_variable_value(&self, var: VariableId) -> (r: Option<String>)
        ensures
            match (r, self.str_var_spec(var)) {
                (Some(s), Some(v)) => s@ == v,
                (None, None) => true,
                _ => false,
            },
    ;

    fn real_parameter_value(&self, param: ParameterId) -> (r: Option<u64>)
        ensures
            r == self.real_param_spec(param),
    ;

    fn int_parameter_value(&self, param: ParameterId) -> (r: Option<i64>)
        ensures
            r == self.int_param_spec(param),
    ;

    fn str_parameter_value(&self, param: ParameterId) -> (r: Option<String>)
        ensures
            match (r, self.str_param_spec(param)) {
                (Some(s), Some(v)) => s@ == v,
                (None, None) => true,
                _ => false,
            },
    ;
}

/// The outcome of evaluating one expression: its value if it is fully
/// statically evaluable, and the lints the evaluation raises.
#[verifier::ext_equal]
pub ghost struct EvalOut<V> {
    pub val: Option<V>,
    pub lints: Seq<ConstantOverflow>,
}

/// Reduction of an arbitrary integer to two's-complement 64-bit.
pub open spec fn wrap64(x: int) -> i64 {
    vstd::wrapping::i64_specs::signed_crop(x)
}

pub open spec fn abs_int(a: int) -> int {
    if a < 0 {
        -a
    } else {
        a
    }
}

/// Truncating division, as the host's integer division behaves.
pub open spec fn trunc_div(a: int, b: int) -> int {
    if (a < 0) == (b < 0) {
        abs_int(a) / abs_int(b)
    } else {
        -(abs_int(a) / abs_int(b))
    }
}

pub open spec fn div_wrap(a: i64, b: i64) -> i64 {
    wrap64(trunc_div(a as int, b as int))
}

/// Remainder of truncating division; it carries the sign of the dividend
/// and the magnitude of the magnitudes' remainder.
pub open spec fn rem_trunc(a: i64, b: i64) -> i64 {
    let m = abs_int(a as int) % abs_int(b as int);
    if a < 0 {
        (-m) as i64
    } else {
        m as i64
    }
}

/// Exponentiation over two's-complement 64-bit values.
pub open spec fn pow_wrap(base: i64, exp: nat) -> i64
    decreases exp,
{
    if exp == 0 {
        1
    } else {
        vstd::wrapping::i64_specs::wrapping_mul(pow_wrap(base, (exp - 1) as nat), base)
    }
}

pub open spec fn shl_wrap(a: i64, s: i64) -> i64 {
    vstd::wrapping::i64_specs::wrapping_shl(a, s as u32)
}

pub open spec fn shr_arith(a: i64, s: i64) -> i64 {
    vstd::wrapping::i64_specs::wrapping_shr(a, s as u32)
}

pub open spec fn bool_to_i64(b: bool) -> i64 {
    if b {
        1
    } else {
        0
    }
}

pub open spec fn no_lints() -> Seq<ConstantOverflow> {
    Seq::empty()
}

/// The value of an integer comparison on two known operands.
pub open spec fn int_cmp_value(l: i64, op: ComparisonOperator, r: i64) -> i64 {
    match op {
        ComparisonOperator::LessThan => bool_to_i64(l < r),
        ComparisonOperator::LessEqual => bool_to_i64(l <= r),
        ComparisonOperator::GreaterThan => bool_to_i64(l > r),
        ComparisonOperator::GreaterEqual => bool_to_i64(l >= r),
        ComparisonOperator::LogicEqual => bool_to_i64(l == r),
        ComparisonOperator::LogicNotEqual => bool_to_i64(l != r),
    }
}

/// The value of a real comparison on two known operands; equality and
/// inequality use the default-margin approximate comparison.
pub open spec fn real_cmp_value(l: u64, op: ComparisonOperator, r: u64) -> i64 {
    match op {
        ComparisonOperator::LessThan => bool_to_i64(lt_bits(l, r)),
        ComparisonOperator::LessEqual => bool_to_i64(crate::realbits::le_bits(l, r)),
        ComparisonOperator::GreaterThan => bool_to_i64(lt_bits(r, l)),
        ComparisonOperator::GreaterEqual => bool_to_i64(crate::realbits::le_bits(r, l)),
        ComparisonOperator::LogicEqual => bool_to_i64(approx_eq_bits(l, r)),
        ComparisonOperator::LogicNotEqual => bool_to_i64(!approx_eq_bits(l, r)),
    }
}

/// The value of an integer binary operator given the operand outcomes,
/// applying the algebraic short-circuits that do not need both sides.
pub open spec fn int_binop_value(lv: Option<i64>, op: IntegerBinaryOperator, rv: Option<i64>) -> Option<
    i64,
> {
    match op {
        IntegerBinaryOperator::Sum => match (lv, rv) {
            (Some(l), Some(r)) => Some(vstd::wrapping::i64_specs::wrapping_add(l, r)),
            _ => None,
        },
        IntegerBinaryOperator::Subtract => match (lv, rv) {
            (Some(l), Some(r)) => Some(vstd::wrapping::i64_specs::wrapping_sub(l, r)),
            _ => None,
        },
        IntegerBinaryOperator::Multiply => match (lv, rv) {
            (None, Some(r)) => if r == 0 {
                Some(0)
            } else {
                None
            },
            (Some(l), None) => if l == 0 {
                Some(0)
            } else {
                None
            },
            (Some(l), Some(r)) => Some(vstd::wrapping::i64_specs::wrapping_mul(l, r)),
            _ => None,
        },
        IntegerBinaryOperator::Divide => match (lv, rv) {
            (Some(l), None) => if l == 0 {
                Some(0)
            } else {
                None
            },
            (Some(l), Some(r)) => if r == 0 {
                None
            } else {
                Some(div_wrap(l, r))
            },
            _ => None,
        },
        IntegerBinaryOperator::Exponent => match rv {
            Some(e) => if e < 0 {
                Some(0)
            } else if e > u32::MAX as i64 {
                // the exponent lint: the power cannot be evaluated
                match lv {
                    Some(b) => if b == 0 {
                        Some(0)
                    } else if b == 1 {
                        Some(1)
                    } else {
                        None
                    },
                    None => None,
                }
            } else {
                match lv {
                    Some(b) => if e == 0 {
                        Some(0)
                    } else if b == 0 {
                        Some(0)
                    } else if b == 1 {
                        Some(1)
                    } else {
                        Some(pow_wrap(b, e as nat))
                    },
                    None => if e == 0 {
                        Some(0)
                    } else {
                        None
                    },
                }
            },
            None => match lv {
                Some(b) => if b == 0 {
                    Some(0)
                } else if b == 1 {
                    Some(1)
                } else {
                    None
                },
                None => None,
            },
        },
        IntegerBinaryOperator::Modulus => match (lv, rv) {
            (Some(l), Some(r)) => if r == 0 {
                None
            } else {
                Some(rem_trunc(l, r))
            },
            _ => None,
        },
        IntegerBinaryOperator::ShiftLeft => match (lv, rv) {
            (Some(l), Some(r)) => if 0 <= r < 64 {
                Some(shl_wrap(l, r))
            } else {
                None
            },
            _ => None,
        },
        IntegerBinaryOperator::ShiftRight => match (lv, rv) {
            (Some(l), Some(r)) => if 0 <= r < 64 {
                Some(shr_arith(l, r))
            } else {
                None
            },
            _ => None,
        },
        IntegerBinaryOperator::Xor => match (lv, rv) {
            (Some(l), Some(r)) => Some(l ^ r),
            _ => None,
        },
        IntegerBinaryOperator::NXor => match (lv, rv) {
            (Some(l), Some(r)) => Some(!(l ^ r)),
            _ => None,
        },
        IntegerBinaryOperator::And => match (lv, rv) {
            (Some(l), _) if l == 0 => Some(0),
            (_, Some(r)) if r == 0 => Some(0),
            (Some(l), Some(r)) => Some(l & r),
            _ => None,
        },
        IntegerBinaryOperator::Or => match (lv, rv) {
            (Some(l), _) if l == i64::MAX => Some(i64::MAX),
            (_, Some(r)) if r == i64::MAX => Some(i64::MAX),
            (Some(l), Some(r)) => Some(l | r),
            _ => None,
        },
        IntegerBinaryOperator::LogicAnd => match (lv, rv) {
            (Some(l), _) if l == 0 => Some(0),
            (_, Some(r)) if r == 0 => Some(0),
            (Some(l), Some(r)) => Some(bool_to_i64(l != 0 && r != 0)),
            _ => None,
        },
        IntegerBinaryOperator::LogicOr => match (lv, rv) {
            (Some(l), _) if l != 0 => Some(1),
            (_, Some(r)) if r != 0 => Some(1),
            (Some(l), Some(r)) => Some(bool_to_i64(l != 0 || r != 0)),
            _ => None,
        },
    }
}

/// Whether evaluating the operator raises a `ConstantOverflow` lint:
/// integer division by a known zero, and a known exponent beyond `u32`.
pub open spec fn int_binop_lints(lv: Option<i64>, op: IntegerBinaryOperator, rv: Option<i64>, span: Span) -> Seq<
    ConstantOverflow,
> {
    match op {
        IntegerBinaryOperator::Divide => if rv == Some(0i64) {
            seq![ConstantOverflow { span }]
        } else {
            no_lints()
        },
        IntegerBinaryOperator::Exponent => match rv {
            Some(e) => if e > u32::MAX as i64 {
                seq![ConstantOverflow { span }]
            } else {
                no_lints()
            },
            None => no_lints(),
        },
        _ => no_lints(),
    }
}

/// The value of a real binary operator given the operand outcomes.
pub open spec fn real_binop_value(lv: Option<u64>, op: RealBinaryOperator, rv: Option<u64>) -> Option<
    u64,
> {
    match op {
        RealBinaryOperator::Sum => match (lv, rv) {
            (Some(l), Some(r)) => Some(add_bits(l, r)),
            _ => None,
        },
        RealBinaryOperator::Subtract => match (lv, rv) {
            (Some(l), Some(r)) => Some(sub_bits(l, r)),
            _ => None,
        },
        RealBinaryOperator::Multiply => match (lv, rv) {
            (None, Some(r)) => if is_zero_bits(r) {
                Some(ZERO_BITS)
            } else {
                None
            },
            (Some(l), None) => if is_zero_bits(l) {
                Some(ZERO_BITS)
            } else {
                None
            },
            (Some(l), Some(r)) => Some(mul_bits(l, r)),
            _ => None,
        },
        RealBinaryOperator::Divide => match (lv, rv) {
            (Some(l), None) => if is_zero_bits(l) {
                Some(ZERO_BITS)
            } else {
                None
            },
            (Some(l), Some(r)) => Some(div_bits(l, r)),
            _ => None,
        },
        RealBinaryOperator::Exponent => real_pow_value(lv, rv),
        RealBinaryOperator::Modulus => match (lv, rv) {
            (Some(l), Some(r)) => Some(rem_bits(l, r)),
            _ => None,
        },
    }
}

/// The algebraic short-circuits of the power operator. A known exponent of
/// zero yields zero, following the folder's historic convention; a known
/// zero base yields zero and a known base of one yields one. A power of two
/// known ordinary operands is not evaluated.
pub open spec fn real_pow_value(lv: Option<u64>, rv: Option<u64>) -> Option<u64> {
    match (lv, rv) {
        (_, Some(e)) if is_zero_bits(e) => Some(ZERO_BITS),
        (Some(b), _) if is_zero_bits(b) => Some(ZERO_BITS),
        (Some(b), _) if is_one_bits(b) => Some(ONE_BITS),
        _ => None,
    }
}

/// The value of a one-argument built-in call on a known operand. Only the
/// operations with exact bit-level semantics are evaluated; transcendental
/// functions are left to run time.
pub open spec fn call1_value(call: BuiltInFunctionCall1p, a: u64) -> Option<u64> {
    match call {
        BuiltInFunctionCall1p::Abs => Some(abs_bits(a)),
        BuiltInFunctionCall1p::Floor => Some(floor_bits(a)),
        BuiltInFunctionCall1p::Ceil => Some(ceil_bits(a)),
        _ => None,
    }
}

pub open spec fn call2_value(call: BuiltInFunctionCall2p, lv: Option<u64>, rv: Option<u64>) -> Option<
    u64,
> {
    match call {
        BuiltInFunctionCall2p::Pow => real_pow_value(lv, rv),
        BuiltInFunctionCall2p::Max => match (lv, rv) {
            (Some(l), Some(r)) => Some(max_bits(l, r)),
            _ => None,
        },
        BuiltInFunctionCall2p::Min => match (lv, rv) {
            (Some(l), Some(r)) => Some(min_bits(l, r)),
            _ => None,
        },
        BuiltInFunctionCall2p::Hypot => None,
        BuiltInFunctionCall2p::ArcTan2 => None,
    }
}

pub open spec fn unary_value(op: UnaryOperator, a: i64) -> i64 {
    match op {
        UnaryOperator::BitNegate => !a,
        UnaryOperator::LogicNegate => !a,
        UnaryOperator::ArithmeticNegate => vstd::wrapping::i64_specs::wrapping_sub(0, a),
        UnaryOperator::ExplicitPositive => a,
    }
}

/// Evaluation of an integer expression: the value when the expression is
/// fully statically evaluable, and the lints raised along the way. This is
/// the reference semantics of constant folding; rewriting never changes
/// the value assigned here.
pub open spec fn eval_int<R: ConstResolver>(st: ExprView, r: &R, e: int) -> EvalOut<i64>
    decreases st.ints[e].ord,
        1nat,
    when exprs_wf(st) && 0 <= e < st.ints.len()
    via eval_int_decreases::<R>
{
    let span = st.ints[e].span;
    match st.ints[e].contents {
        IntegerExpression::Literal(v) => EvalOut { val: Some(v), lints: no_lints() },
        IntegerExpression::BinaryOperator(l, op, rr) => {
            let lo = eval_int(st, r, l as int);
            let ro = eval_int(st, r, rr as int);
            EvalOut {
                val: int_binop_value(lo.val, op, ro.val),
                lints: lo.lints + ro.lints + int_binop_lints(lo.val, op, ro.val, span),
            }
        },
        IntegerExpression::UnaryOperator(op, a) => {
            let ao = eval_int(st, r, a as int);
            EvalOut {
                val: match ao.val {
                    Some(v) => Some(unary_value(op, v)),
                    None => None,
                },
                lints: ao.lints,
            }
        },
        IntegerExpression::Condition(c, t, f) => {
            let co = eval_int(st, r, c as int);
            match co.val {
                Some(cv) => {
                    let chosen = eval_int(st, r, if cv == 0 { f as int } else { t as int });
                    EvalOut { val: chosen.val, lints: co.lints + chosen.lints }
                },
                None => EvalOut { val: None, lints: co.lints },
            }
        },
        IntegerExpression::IntegerComparison(l, op, rr) => {
            let lo = eval_int(st, r, l as int);
            let ro = eval_int(st, r, rr as int);
            EvalOut {
                val: match (lo.val, ro.val) {
                    (Some(a), Some(b)) => Some(int_cmp_value(a, op, b)),
                    _ => None,
                },
                lints: lo.lints + ro.lints,
            }
        },
        IntegerExpression::RealComparison(l, op, rr) => {
            let lo = eval_real(st, r, l as int);
            let ro = eval_real(st, r, rr as int);
            EvalOut {
                val: match (lo.val, ro.val) {
                    (Some(a), Some(b)) => Some(real_cmp_value(a, op, b)),
                    _ => None,
                },
                lints: lo.lints + ro.lints,
            }
        },
        IntegerExpression::VariableReference(v) => EvalOut {
            val: r.int_var_spec(v),
            lints: no_lints(),
        },
        IntegerExpression::ParameterReference(p) => EvalOut {
            val: r.int_param_spec(p),
            lints: no_lints(),
        },
        IntegerExpression::RealCast(a) => {
            let ao = eval_real(st, r, a as int);
            EvalOut {
                val: match ao.val {
                    Some(v) => Some(bits_round_to_int(v)),
                    None => None,
                },
                lints: ao.lints,
            }
        },
        IntegerExpression::PortConnected(_) => EvalOut { val: None, lints: no_lints() },
        IntegerExpression::ParamGiven(_) => EvalOut { val: None, lints: no_lints() },
        IntegerExpression::PortReference(_) => EvalOut { val: None, lints: no_lints() },
        IntegerExpression::NetReference(_) => EvalOut { val: None, lints: no_lints() },
        IntegerExpression::StringEq(l, rr) => {
            let lo = eval_str(st, r, l as int);
            let ro = eval_str(st, r, rr as int);
            EvalOut {
                val: match (lo.val, ro.val) {
                    (Some(a), Some(b)) => Some(bool_to_i64(a == b)),
                    _ => None,
                },
                lints: lo.lints + ro.lints,
            }
        },
        IntegerExpression::StringNEq(l, rr) => {
            let lo = eval_str(st, r, l as int);
            let ro = eval_str(st, r, rr as int);
            EvalOut {
                val: match (lo.val, ro.val) {
                    (Some(a), Some(b)) => Some(bool_to_i64(a != b)),
                    _ => None,
                },
                lints: lo.lints + ro.lints,
            }
        },
        IntegerExpression::Min(l, rr) => {
            let lo = eval_int(st, r, l as int);
            let ro = eval_int(st, r, rr as int);
            EvalOut {
                val: match (lo.val, ro.val) {
                    (Some(a), Some(b)) => Some(if a < b { a } else { b }),
                    _ => None,
                },
                lints: lo.lints + ro.lints,
            }
        },
        IntegerExpression::Max(l, rr) => {
            let lo = eval_int(st, r, l as int);
            let ro = eval_int(st, r, rr as int);
            EvalOut {
                val: match (lo.val, ro.val) {
                    (Some(a), Some(b)) => Some(if a > b { a } else { b }),
                    _ => None,
                },
                lints: lo.lints + ro.lints,
            }
        },
        IntegerExpression::Abs(a) => {
            let ao = eval_int(st, r, a as int);
            EvalOut {
                val: match ao.val {
                    Some(v) => Some(
                        if v < 0 {
                            vstd::wrapping::i64_specs::wrapping_sub(0, v)
                        } else {
                            v
                        },
                    ),
                    None => None,
                },
                lints: ao.lints,
            }
        },
    }
}

/// Evaluation of a real expression over binary64 bit patterns.
pub open spec fn eval_real<R: ConstResolver>(st: ExprView, r: &R, e: int) -> EvalOut<u64>
    decreases st.reals[e].ord,
        1nat,
    when exprs_wf(st) && 0 <= e < st.reals.len()
    via eval_real_decreases::<R>
{
    match st.reals[e].contents {
        RealExpression::Literal(v) => EvalOut { val: Some(v), lints: no_lints() },
        RealExpression::BinaryOperator(l, op, rr) => {
            let lo = eval_real(st, r, l as int);
            let ro = eval_real(st, r, rr as int);
            EvalOut { val: real_binop_value(lo.val, op, ro.val), lints: lo.lints + ro.lints }
        },
        RealExpression::Negate(a) => {
            let ao = eval_real(st, r, a as int);
            EvalOut {
                val: match ao.val {
                    Some(v) => Some(neg_bits(v)),
                    None => None,
                },
                lints: ao.lints,
            }
        },
        RealExpression::Condition(c, t, f) => {
            let co = eval_int(st, r, c as int);
            match co.val {
                Some(cv) => {
                    let chosen = eval_real(st, r, if cv == 0 { f as int } else { t as int });
                    EvalOut { val: chosen.val, lints: co.lints + chosen.lints }
                },
                None => EvalOut { val: None, lints: co.lints },
            }
        },
        RealExpression::VariableReference(v) => EvalOut {
            val: r.real_var_spec(v),
            lints: no_lints(),
        },
        RealExpression::ParameterReference(p) => EvalOut {
            val: r.real_param_spec(p),
            lints: no_lints(),
        },
        RealExpression::BranchAccess(_, _, _) => EvalOut { val: None, lints: no_lints() },
        RealExpression::Noise(_, _) => EvalOut { val: None, lints: no_lints() },
        RealExpression::BuiltInFunctionCall1p(call, a) => {
            let ao = eval_real(st, r, a as int);
            EvalOut {
                val: match ao.val {
                    Some(v) => call1_value(call, v),
                    None => None,
                },
                lints: ao.lints,
            }
        },
        RealExpression::BuiltInFunctionCall2p(call, a, b) => {
            let lo = eval_real(st, r, a as int);
            let ro = eval_real(st, r, b as int);
            EvalOut { val: call2_value(call, lo.val, ro.val), lints: lo.lints + ro.lints }
        },
        RealExpression::Temperature => EvalOut { val: None, lints: no_lints() },
        RealExpression::SimParam(_, _) => EvalOut { val: None, lints: no_lints() },
        RealExpression::IntegerConversion(a) => {
            let ao = eval_int(st, r, a as int);
            EvalOut {
                val: match ao.val {
                    Some(v) => Some(int_to_bits(v)),
                    None => None,
                },
                lints: ao.lints,
            }
        },
    }
}

/// Evaluation of a string expression.
pub open spec fn eval_str<R: ConstResolver>(st: ExprView, r: &R, e: int) -> EvalOut<Seq<char>>
    decreases st.strs[e].ord,
        1nat,
    when exprs_wf(st) && 0 <= e < st.strs.len()
    via eval_str_decreases::<R>
{
    match st.strs[e].contents {
        StringExpression::Literal(s) => EvalOut { val: Some(s@), lints: no_lints() },
        StringExpression::Condition(c, t, f) => {
            let co = eval_int(st, r, c as int);
            match co.val {
                Some(cv) => {
                    let chosen = eval_str(st, r, if cv == 0 { f as int } else { t as int });
                    EvalOut { val: chosen.val, lints: co.lints + chosen.lints }
                },
                None => EvalOut { val: None, lints: co.lints },
            }
        },
        StringExpression::VariableReference(v) => EvalOut {
            val: r.str_var_spec(v),
            lints: no_lints(),
        },
        StringExpression::ParameterReference(p) => EvalOut {
            val: r.str_param_spec(p),
            lints: no_lints(),
        },
        StringExpression::SimParam(_) => EvalOut { val: None, lints: no_lints() },
    }
}


#[via_fn]
proof fn eval_int_decreases<R: ConstResolver>(st: ExprView, r: &R, e: int) {
    assert(int_contents_wf(st, st.ints[e].contents, st.ints[e].ord));
}

#[via_fn]
proof fn eval_real_decreases<R: ConstResolver>(st: ExprView, r: &R, e: int) {
    assert(real_contents_wf(st, st.reals[e].contents, st.reals[e].ord));
}

#[via_fn]
proof fn eval_str_decreases<R: ConstResolver>(st: ExprView, r: &R, e: int) {
    assert(str_contents_wf(st, st.strs[e].contents, st.strs[e].ord));
}

/// What the mutating integer folder does to a node whose value stays
/// unknown, beyond preserving every value: the algebraic identities
/// rewrite the node to the surviving (unknown) operand's contents, a
/// decided conditional takes its chosen branch, integer division by a
/// foldable zero raises exactly one lint at the node's span, an exponent
/// beyond the 32-bit range raises exactly one lint, and a negative
/// literal exponent of a literal base folds to zero without a lint.
/// `a` is the state before folding `e`, `b` the state after; `lints0` and
/// `lints1` the lint vector before and after.
pub open spec fn int_rewrites_hold<R: ConstResolver>(
    a: ExprView,
    b: ExprView,
    r: &R,
    e: int,
    res: Option<i64>,
    lints0: Seq<ConstantOverflow>,
    lints1: Seq<ConstantOverflow>,
    mutate: bool,
) -> bool {
    match a.ints[e].contents {
        IntegerExpression::BinaryOperator(l, op, rr) => {
            let lv = eval_int(a, r, l as int).val;
            let rv = eval_int(a, r, rr as int).val;
            let lc = a.ints[l as int].contents;
            let rc = a.ints[rr as int].contents;
            &&& (op == IntegerBinaryOperator::Divide && rv == Some(0i64) ==> res is None && (
            exists|mm: Seq<ConstantOverflow>|
                lints0.is_prefix_of(mm) && lints1 == mm.push(
                    ConstantOverflow { span: a.ints[e].span },
                )))
            &&& (op == IntegerBinaryOperator::Exponent ==> match rv {
                Some(n) => n > u32::MAX as i64 ==> exists|mm: Seq<ConstantOverflow>|
                    lints0.is_prefix_of(mm) && lints1 == mm.push(
                        ConstantOverflow { span: a.ints[e].span },
                    ),
                None => true,
            })
            &&& (op == IntegerBinaryOperator::Exponent && lc is Literal ==> match rc {
                IntegerExpression::Literal(n) => n < 0 ==> res == Some(0i64) && lints1 == lints0,
                _ => true,
            })
            &&& (mutate ==> {
                &&& (op == IntegerBinaryOperator::Sum && lv is None && rv == Some(0i64)
                    ==> b.ints[e].contents == b.ints[l as int].contents)
                &&& (op == IntegerBinaryOperator::Sum && lv == Some(0i64) && rv is None
                    ==> b.ints[e].contents == b.ints[rr as int].contents)
                &&& (op == IntegerBinaryOperator::Subtract && lv is None && rv == Some(0i64)
                    ==> b.ints[e].contents == b.ints[l as int].contents)
                &&& (op == IntegerBinaryOperator::Multiply && lv is None && rv == Some(1i64)
                    ==> b.ints[e].contents == b.ints[l as int].contents)
                &&& (op == IntegerBinaryOperator::Multiply && lv == Some(1i64) && rv is None
                    ==> b.ints[e].contents == b.ints[rr as int].contents)
                &&& (op == IntegerBinaryOperator::Divide && lv is None && rv == Some(1i64)
                    ==> b.ints[e].contents == b.ints[l as int].contents)
                &&& (op == IntegerBinaryOperator::Exponent && lv is None && rv == Some(1i64)
                    ==> b.ints[e].contents == b.ints[l as int].contents)
                &&& (op == IntegerBinaryOperator::And && lv is None && rv == Some(i64::MAX)
                    ==> b.ints[e].contents == b.ints[l as int].contents)
                &&& (op == IntegerBinaryOperator::And && lv == Some(i64::MAX) && rv is None
                    ==> b.ints[e].contents == b.ints[rr as int].contents)
                &&& (op == IntegerBinaryOperator::Or && lv is None && rv == Some(0i64)
                    ==> b.ints[e].contents == b.ints[l as int].contents)
                &&& (op == IntegerBinaryOperator::Or && lv == Some(0i64) && rv is None
                    ==> b.ints[e].contents == b.ints[rr as int].contents)
                &&& (op == IntegerBinaryOperator::LogicAnd && lv is None && (match rv {
                    Some(x) => x != 0,
                    None => false,
                }) ==> b.ints[e].contents == b.ints[l as int].contents)
                &&& (op == IntegerBinaryOperator::LogicAnd && rv is None && (match lv {
                    Some(x) => x != 0,
                    None => false,
                }) ==> b.ints[e].contents == b.ints[rr as int].contents)
                &&& (op == IntegerBinaryOperator::LogicOr && lv is None && rv == Some(0i64)
                    ==> b.ints[e].contents == b.ints[l as int].contents)
                &&& (op == IntegerBinaryOperator::LogicOr && lv == Some(0i64) && rv is None
                    ==> b.ints[e].contents == b.ints[rr as int].contents)
            })
        },
        IntegerExpression::Condition(c0, t, f) => match eval_int(a, r, c0 as int).val {
            Some(cv) => {
                let chosen = if cv != 0 {
                    t
                } else {
                    f
                };
                res == eval_int(a, r, chosen as int).val && (mutate && res is None
                    ==> b.ints[e].contents == b.ints[chosen as int].contents)
            },
            None => res is None,
        },
        _ => true,
    }
}

/// What the mutating real folder does to a node whose value stays
/// unknown: the identities over binary64 literals rewrite the node to the
/// surviving operand's contents (adding a zero, subtracting a zero,
/// multiplying or dividing by one, raising to the power one, for both the
/// operator and the two-argument power call), and a decided conditional
/// takes its chosen branch. A known zero times an unknown folds to the
/// canonical zero from either side.
pub open spec fn real_rewrites_hold<R: ConstResolver>(
    a: ExprView,
    b: ExprView,
    r: &R,
    e: int,
    res: Option<u64>,
    mutate: bool,
) -> bool {
    match a.reals[e].contents {
        RealExpression::BinaryOperator(l, op, rr) => {
            let lv = eval_real(a, r, l as int).val;
            let rv = eval_real(a, r, rr as int).val;
            let r_zero = match rv {
                Some(z) => is_zero_bits(z),
                None => false,
            };
            let l_zero = match lv {
                Some(z) => is_zero_bits(z),
                None => false,
            };
            let r_one = match rv {
                Some(o) => is_one_bits(o),
                None => false,
            };
            let l_one = match lv {
                Some(o) => is_one_bits(o),
                None => false,
            };
            &&& (op == RealBinaryOperator::Multiply && l_zero && rv is None ==> res == Some(
                ZERO_BITS,
            ))
            &&& (mutate ==> {
                &&& (op == RealBinaryOperator::Sum && lv is None && r_zero ==> b.reals[e].contents
                    == b.reals[l as int].contents)
                &&& (op == RealBinaryOperator::Sum && l_zero && rv is None ==> b.reals[e].contents
                    == b.reals[rr as int].contents)
                &&& (op == RealBinaryOperator::Subtract && lv is None && r_zero
                    ==> b.reals[e].contents == b.reals[l as int].contents)
                &&& (op == RealBinaryOperator::Multiply && lv is None && r_one
                    ==> b.reals[e].contents == b.reals[l as int].contents)
                &&& (op == RealBinaryOperator::Multiply && l_one && rv is None
                    ==> b.reals[e].contents == b.reals[rr as int].contents)
                &&& (op == RealBinaryOperator::Divide && lv is None && r_one
                    ==> b.reals[e].contents == b.reals[l as int].contents)
                &&& (op == RealBinaryOperator::Exponent && lv is None && r_one
                    ==> b.reals[e].contents == b.reals[l as int].contents)
            })
        },
        RealExpression::BuiltInFunctionCall2p(call, x, y) => {
            let lv = eval_real(a, r, x as int).val;
            let rv = eval_real(a, r, y as int).val;
            let r_one = match rv {
                Some(o) => is_one_bits(o),
                None => false,
            };
            mutate && call == BuiltInFunctionCall2p::Pow && lv is None && r_one
                ==> b.reals[e].contents == b.reals[x as int].contents
        },
        RealExpression::Condition(c0, t, f) => match eval_int(a, r, c0 as int).val {
            Some(cv) => {
                let chosen = if cv != 0 {
                    t
                } else {
                    f
                };
                res == eval_real(a, r, chosen as int).val && (mutate && res is None
                    ==> b.reals[e].contents == b.reals[chosen as int].contents)
            },
            None => res is None,
        },
        _ => true,
    }
}

/// The two states agree on arena lengths and on every node's stamp and span:
/// folding rewrites contents and nothing else.
pub open spec fn shape_eq(a: ExprView, b: ExprView) -> bool {
    &&& b.reals.len() == a.reals.len()
    &&& b.ints.len() == a.ints.len()
    &&& b.strs.len() == a.strs.len()
    &&& b.next_ord == a.next_ord
    &&& forall|i: int|
        0 <= i < a.reals.len() ==> (#[trigger] b.reals[i]).ord == a.reals[i].ord && b.reals[i].span
            == a.reals[i].span
    &&& forall|i: int|
        0 <= i < a.ints.len() ==> (#[trigger] b.ints[i]).ord == a.ints[i].ord && b.ints[i].span
            == a.ints[i].span
    &&& forall|i: int|
        0 <= i < a.strs.len() ==> (#[trigger] b.strs[i]).ord == a.strs[i].ord && b.strs[i].span
            == a.strs[i].span
}

/// A rewrite of node `k` is sound when the new contents are those of a
/// strict subexpression whose value agrees with the node's value, or a
/// literal of exactly the node's value.
pub open spec fn int_rewrite_ok<R: ConstResolver>(
    a: ExprView,
    r: &R,
    k: int,
    c: IntegerExpression,
) -> bool {
    ||| (exists|l: int|
        0 <= l < a.ints.len() && c == (#[trigger] a.ints[l]).contents && a.ints[l].ord
            < a.ints[k].ord && eval_int(a, r, l).val == eval_int(a, r, k).val)
    ||| (match c {
        IntegerExpression::Literal(v) => eval_int(a, r, k).val == Some(v),
        _ => false,
    })
}

pub open spec fn real_rewrite_ok<R: ConstResolver>(
    a: ExprView,
    r: &R,
    k: int,
    c: RealExpression,
) -> bool {
    ||| (exists|l: int|
        0 <= l < a.reals.len() && c == (#[trigger] a.reals[l]).contents && a.reals[l].ord
            < a.reals[k].ord && eval_real(a, r, l).val == eval_real(a, r, k).val)
    ||| (match c {
        RealExpression::Literal(v) => eval_real(a, r, k).val == Some(v),
        _ => false,
    })
}

pub open spec fn str_rewrite_ok<R: ConstResolver>(
    a: ExprView,
    r: &R,
    k: int,
    c: StringExpression,
) -> bool {
    ||| (exists|l: int|
        0 <= l < a.strs.len() && c == (#[trigger] a.strs[l]).contents && a.strs[l].ord
            < a.strs[k].ord && eval_str(a, r, l).val == eval_str(a, r, k).val)
    ||| (match c {
        StringExpression::Literal(v) => eval_str(a, r, k).val == Some(v@),
        _ => false,
    })
}

pub open spec fn int_upd<R: ConstResolver>(a: ExprView, b: ExprView, r: &R, k: int) -> bool {
    &&& shape_eq(a, b)
    &&& 0 <= k < a.ints.len()
    &&& forall|i: int| 0 <= i < a.reals.len() ==> #[trigger] b.reals[i] == a.reals[i]
    &&& forall|i: int| 0 <= i < a.ints.len() && i != k ==> #[trigger] b.ints[i] == a.ints[i]
    &&& forall|i: int| 0 <= i < a.strs.len() ==> #[trigger] b.strs[i] == a.strs[i]
    &&& int_rewrite_ok(a, r, k, b.ints[k].contents)
}

pub open spec fn real_upd<R: ConstResolver>(a: ExprView, b: ExprView, r: &R, k: int) -> bool {
    &&& shape_eq(a, b)
    &&& 0 <= k < a.reals.len()
    &&& forall|i: int| 0 <= i < a.reals.len() && i != k ==> #[trigger] b.reals[i] == a.reals[i]
    &&& forall|i: int| 0 <= i < a.ints.len() ==> #[trigger] b.ints[i] == a.ints[i]
    &&& forall|i: int| 0 <= i < a.strs.len() ==> #[trigger] b.strs[i] == a.strs[i]
    &&& real_rewrite_ok(a, r, k, b.reals[k].contents)
}

pub open spec fn str_upd<R: ConstResolver>(a: ExprView, b: ExprView, r: &R, k: int) -> bool {
    &&& shape_eq(a, b)
    &&& 0 <= k < a.strs.len()
    &&& forall|i: int| 0 <= i < a.reals.len() ==> #[trigger] b.reals[i] == a.reals[i]
    &&& forall|i: int| 0 <= i < a.ints.len() ==> #[trigger] b.ints[i] == a.ints[i]
    &&& forall|i: int| 0 <= i < a.strs.len() && i != k ==> #[trigger] b.strs[i] == a.strs[i]
    &&& str_rewrite_ok(a, r, k, b.strs[k].contents)
}

/// One sound rewrite of a single node of either sort.
pub open spec fn upd_any<R: ConstResolver>(a: ExprView, b: ExprView, r: &R) -> bool {
    ||| exists|k: int| #[trigger] int_upd(a, b, r, k)
    ||| exists|k: int| #[trigger] real_upd(a, b, r, k)
    ||| exists|k: int| #[trigger] str_upd(a, b, r, k)
}

proof fn lemma_upd_shape<R: ConstResolver>(a: ExprView, b: ExprView, r: &R)
    requires
        upd_any(a, b, r),
    ensures
        shape_eq(a, b),
{
    if exists|k: int| #[trigger] int_upd(a, b, r, k) {
        let k = choose|k: int| int_upd(a, b, r, k);
        assert(int_upd(a, b, r, k));
    } else if exists|k: int| #[trigger] real_upd(a, b, r, k) {
        let k = choose|k: int| real_upd(a, b, r, k);
        assert(real_upd(a, b, r, k));
    } else {
        let k = choose|k: int| str_upd(a, b, r, k);
        assert(str_upd(a, b, r, k));
    }
}

proof fn lemma_upd_wf<R: ConstResolver>(a: ExprView, b: ExprView, r: &R)
    requires
        exprs_wf(a),
        upd_any(a, b, r),
    ensures
        exprs_wf(b),
{
    lemma_upd_shape(a, b, r);
    assert forall|i: int| 0 <= i < b.reals.len() implies real_contents_wf(
        b,
        b.reals[i].contents,
        b.reals[i].ord,
    ) && b.reals[i].ord < b.next_ord by {
        assert(real_contents_wf(a, a.reals[i].contents, a.reals[i].ord));
        if b.reals[i].contents != a.reals[i].contents {
            let k = choose|k: int| real_upd(a, b, r, k);
            assert(real_upd(a, b, r, k));
            assert(i == k);
            let c = b.reals[k].contents;
            if exists|l: int|
                0 <= l < a.reals.len() && c == (#[trigger] a.reals[l]).contents && a.reals[l].ord
                    < a.reals[k].ord && eval_real(a, r, l).val == eval_real(a, r, k).val {
                let l = choose|l: int|
                    0 <= l < a.reals.len() && c == (#[trigger] a.reals[l]).contents
                        && a.reals[l].ord < a.reals[k].ord && eval_real(a, r, l).val == eval_real(
                        a,
                        r,
                        k,
                    ).val;
                assert(real_contents_wf(a, a.reals[l].contents, a.reals[l].ord));
                assert(real_contents_wf(a, c, a.reals[k].ord));
            }
        }
        assert(real_contents_wf(a, b.reals[i].contents, b.reals[i].ord));
        assert(real_contents_wf(b, b.reals[i].contents, b.reals[i].ord));
    }
    assert forall|i: int| 0 <= i < b.ints.len() implies int_contents_wf(
        b,
        b.ints[i].contents,
        b.ints[i].ord,
    ) && b.ints[i].ord < b.next_ord by {
        assert(int_contents_wf(a, a.ints[i].contents, a.ints[i].ord));
        if b.ints[i].contents != a.ints[i].contents {
            let k = choose|k: int| int_upd(a, b, r, k);
            assert(int_upd(a, b, r, k));
            assert(i == k);
            let c = b.ints[k].contents;
            if exists|l: int|
                0 <= l < a.ints.len() && c == (#[trigger] a.ints[l]).contents && a.ints[l].ord
                    < a.ints[k].ord && eval_int(a, r, l).val == eval_int(a, r, k).val {
                let l = choose|l: int|
                    0 <= l < a.ints.len() && c == (#[trigger] a.ints[l]).contents && a.ints[l].ord
                        < a.ints[k].ord && eval_int(a, r, l).val == eval_int(a, r, k).val;
                assert(int_contents_wf(a, a.ints[l].contents, a.ints[l].ord));
                assert(int_contents_wf(a, c, a.ints[k].ord));
            }
        }
        assert(int_contents_wf(a, b.ints[i].contents, b.ints[i].ord));
        assert(int_contents_wf(b, b.ints[i].contents, b.ints[i].ord));
    }
    assert forall|i: int| 0 <= i < b.strs.len() implies str_contents_wf(
        b,
        b.strs[i].contents,
        b.strs[i].ord,
    ) && b.strs[i].ord < b.next_ord by {
        assert(str_contents_wf(a, a.strs[i].contents, a.strs[i].ord));
        if b.strs[i].contents != a.strs[i].contents {
            let k = choose|k: int| str_upd(a, b, r, k);
            assert(str_upd(a, b, r, k));
            assert(i == k);
            let c = b.strs[k].contents;
            if exists|l: int|
                0 <= l < a.strs.len() && c == (#[trigger] a.strs[l]).contents && a.strs[l].ord
                    < a.strs[k].ord && eval_str(a, r, l).val == eval_str(a, r, k).val {
                let l = choose|l: int|
                    0 <= l < a.strs.len() && c == (#[trigger] a.strs[l]).contents && a.strs[l].ord
                        < a.strs[k].ord && eval_str(a, r, l).val == eval_str(a, r, k).val;
                assert(str_contents_wf(a, a.strs[l].contents, a.strs[l].ord));
                assert(str_contents_wf(a, c, a.strs[k].ord));
            }
        }
        assert(str_contents_wf(a, b.strs[i].contents, b.strs[i].ord));
        assert(str_contents_wf(b, b.strs[i].contents, b.strs[i].ord));
    }
}

proof fn lemma_upd_eval_int<R: ConstResolver>(a: ExprView, b: ExprView, r: &R, e: int)
    requires
        exprs_wf(a),
        exprs_wf(b),
        upd_any(a, b, r),
        0 <= e < a.ints.len(),
    ensures
        eval_int(b, r, e).val == eval_int(a, r, e).val,
    decreases a.ints[e].ord, 1nat,
{
    lemma_upd_shape(a, b, r);
    if b.ints[e] == a.ints[e] {
        assert(int_contents_wf(a, a.ints[e].contents, a.ints[e].ord));
        match a.ints[e].contents {
            IntegerExpression::BinaryOperator(l, _, rr) => {
                lemma_upd_eval_int(a, b, r, l as int);
                lemma_upd_eval_int(a, b, r, rr as int);
            },
            IntegerExpression::UnaryOperator(_, x) => {
                lemma_upd_eval_int(a, b, r, x as int);
            },
            IntegerExpression::Condition(c0, t, f) => {
                lemma_upd_eval_int(a, b, r, c0 as int);
                lemma_upd_eval_int(a, b, r, t as int);
                lemma_upd_eval_int(a, b, r, f as int);
            },
            IntegerExpression::IntegerComparison(l, _, rr) => {
                lemma_upd_eval_int(a, b, r, l as int);
                lemma_upd_eval_int(a, b, r, rr as int);
            },
            IntegerExpression::RealComparison(l, _, rr) => {
                lemma_upd_eval_real(a, b, r, l as int);
                lemma_upd_eval_real(a, b, r, rr as int);
            },
            IntegerExpression::RealCast(x) => {
                lemma_upd_eval_real(a, b, r, x as int);
            },
            IntegerExpression::StringEq(l, rr) => {
                lemma_upd_eval_str(a, b, r, l as int);
                lemma_upd_eval_str(a, b, r, rr as int);
            },
            IntegerExpression::StringNEq(l, rr) => {
                lemma_upd_eval_str(a, b, r, l as int);
                lemma_upd_eval_str(a, b, r, rr as int);
            },
            IntegerExpression::Min(l, rr) => {
                lemma_upd_eval_int(a, b, r, l as int);
                lemma_upd_eval_int(a, b, r, rr as int);
            },
            IntegerExpression::Max(l, rr) => {
                lemma_upd_eval_int(a, b, r, l as int);
                lemma_upd_eval_int(a, b, r, rr as int);
            },
            IntegerExpression::Abs(x) => {
                lemma_upd_eval_int(a, b, r, x as int);
            },
            _ => {},
        }
        assert(eval_int(b, r, e).val == eval_int(a, r, e).val);
    } else {
        let k = choose|k: int| int_upd(a, b, r, k);
        assert(int_upd(a, b, r, k));
        assert(e == k);
        let c = b.ints[e].contents;
        match c {
            IntegerExpression::Literal(v) => {
                assert(eval_int(b, r, e).val == Some(v));
            },
            _ => {
                let l = choose|l: int|
                    0 <= l < a.ints.len() && c == (#[trigger] a.ints[l]).contents && a.ints[l].ord
                        < a.ints[k].ord && eval_int(a, r, l).val == eval_int(a, r, k).val;
                assert(b.ints[l] == a.ints[l]);
                assert(int_contents_wf(a, a.ints[l].contents, a.ints[l].ord));
                assert(int_contents_wf(b, b.ints[l].contents, b.ints[l].ord));
                lemma_upd_eval_int(a, b, r, l);
                assert(eval_int(b, r, e).val == eval_int(b, r, l).val);
            },
        }
    }
}

proof fn lemma_upd_eval_real<R: ConstResolver>(a: ExprView, b: ExprView, r: &R, e: int)
    requires
        exprs_wf(a),
        exprs_wf(b),
        upd_any(a, b, r),
        0 <= e < a.reals.len(),
    ensures
        eval_real(b, r, e).val == eval_real(a, r, e).val,
    decreases a.reals[e].ord, 1nat,
{
    lemma_upd_shape(a, b, r);
    if b.reals[e] == a.reals[e] {
        assert(real_contents_wf(a, a.reals[e].contents, a.reals[e].ord));
        match a.reals[e].contents {
            RealExpression::BinaryOperator(l, _, rr) => {
                lemma_upd_eval_real(a, b, r, l as int);
                lemma_upd_eval_real(a, b, r, rr as int);
            },
            RealExpression::Negate(x) => {
                lemma_upd_eval_real(a, b, r, x as int);
            },
            RealExpression::Condition(c0, t, f) => {
                lemma_upd_eval_int(a, b, r, c0 as int);
                lemma_upd_eval_real(a, b, r, t as int);
                lemma_upd_eval_real(a, b, r, f as int);
            },
            RealExpression::BuiltInFunctionCall1p(_, x) => {
                lemma_upd_eval_real(a, b, r, x as int);
            },
            RealExpression::BuiltInFunctionCall2p(_, x, y) => {
                lemma_upd_eval_real(a, b, r, x as int);
                lemma_upd_eval_real(a, b, r, y as int);
            },
            RealExpression::IntegerConversion(x) => {
                lemma_upd_eval_int(a, b, r, x as int);
            },
            _ => {},
        }
        assert(eval_real(b, r, e).val == eval_real(a, r, e).val);
    } else {
        let k = choose|k: int| real_upd(a, b, r, k);
        assert(real_upd(a, b, r, k));
        assert(e == k);
        let c = b.reals[e].contents;
        match c {
            RealExpression::Literal(v) => {
                assert(eval_real(b, r, e).val == Some(v));
            },
            _ => {
                let l = choose|l: int|
                    0 <= l < a.reals.len() && c == (#[trigger] a.reals[l]).contents
                        && a.reals[l].ord < a.reals[k].ord && eval_real(a, r, l).val == eval_real(
                        a,
                        r,
                        k,
                    ).val;
                assert(b.reals[l] == a.reals[l]);
                assert(real_contents_wf(a, a.reals[l].contents, a.reals[l].ord));
                assert(real_contents_wf(b, b.reals[l].contents, b.reals[l].ord));
                lemma_upd_eval_real(a, b, r, l);
                assert(eval_real(b, r, e).val == eval_real(b, r, l).val);
            },
        }
    }
}

proof fn lemma_upd_eval_str<R: ConstResolver>(a: ExprView, b: ExprView, r: &R, e: int)
    requires
        exprs_wf(a),
        exprs_wf(b),
        upd_any(a, b, r),
        0 <= e < a.strs.len(),
    ensures
        eval_str(b, r, e).val == eval_str(a, r, e).val,
    decreases a.strs[e].ord, 1nat,
{
    lemma_upd_shape(a, b, r);
    if b.strs[e] == a.strs[e] {
        assert(str_contents_wf(a, a.strs[e].contents, a.strs[e].ord));
        match a.strs[e].contents {
            StringExpression::Literal(sv) => {
                assert(eval_str(a, r, e).val == Some(sv@));
                assert(eval_str(b, r, e).val == Some(sv@));
            },
            StringExpression::Condition(c0, t, f) => {
                lemma_upd_eval_int(a, b, r, c0 as int);
                lemma_upd_eval_str(a, b, r, t as int);
                lemma_upd_eval_str(a, b, r, f as int);
                assert(eval_str(b, r, e).val == eval_str(a, r, e).val);
            },
            _ => {
                assert(eval_str(b, r, e).val == eval_str(a, r, e).val);
            },
        }
        assert(eval_str(b, r, e).val == eval_str(a, r, e).val);
    } else {
        let k = choose|k: int| str_upd(a, b, r, k);
        assert(str_upd(a, b, r, k));
        assert(e == k);
        let c = b.strs[e].contents;
        match c {
            StringExpression::Literal(v) => {
                assert(eval_str(b, r, e).val == Some(v@));
            },
            _ => {
                let l = choose|l: int|
                    0 <= l < a.strs.len() && c == (#[trigger] a.strs[l]).contents && a.strs[l].ord
                        < a.strs[k].ord && eval_str(a, r, l).val == eval_str(a, r, k).val;
                assert(b.strs[l] == a.strs[l]);
                assert(str_contents_wf(a, a.strs[l].contents, a.strs[l].ord));
                assert(str_contents_wf(b, b.strs[l].contents, b.strs[l].ord));
                lemma_upd_eval_str(a, b, r, l);
                assert(eval_str(b, r, e).val == eval_str(b, r, l).val);
            },
        }
    }
}

/// A sound single-node rewrite keeps the arenas well-formed and changes no
/// expression's value, of any sort.
pub proof fn lemma_upd_preserves<R: ConstResolver>(a: ExprView, b: ExprView, r: &R)
    requires
        exprs_wf(a),
        upd_any(a, b, r),
    ensures
        exprs_wf(b),
        forall|i: int|
            0 <= i < a.ints.len() ==> (#[trigger] eval_int(b, r, i)).val == eval_int(a, r, i).val,
        forall|i: int|
            0 <= i < a.reals.len() ==> (#[trigger] eval_real(b, r, i)).val == eval_real(
                a,
                r,
                i,
            ).val,
        forall|i: int|
            0 <= i < a.strs.len() ==> (#[trigger] eval_str(b, r, i)).val == eval_str(a, r, i).val,
{
    lemma_upd_wf(a, b, r);
    assert forall|i: int| 0 <= i < a.ints.len() implies (#[trigger] eval_int(b, r, i)).val
        == eval_int(a, r, i).val by {
        lemma_upd_eval_int(a, b, r, i);
    }
    assert forall|i: int| 0 <= i < a.reals.len() implies (#[trigger] eval_real(b, r, i)).val
        == eval_real(a, r, i).val by {
        lemma_upd_eval_real(a, b, r, i);
    }
    assert forall|i: int| 0 <= i < a.strs.len() implies (#[trigger] eval_str(b, r, i)).val
        == eval_str(a, r, i).val by {
        lemma_upd_eval_str(a, b, r, i);
    }
}

} // verus!
