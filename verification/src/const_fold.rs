use vstd::prelude::*;
use crate::fold_spec::{
    abs_int, div_wrap, eval_int, eval_real, eval_str, pow_wrap, rem_trunc, trunc_div,
    ConstResolver, ConstantOverflow,
};
use crate::mir::{
    exprs_wf, BuiltInFunctionCall1p, BuiltInFunctionCall2p, ComparisonOperator, ExprArenas,
    IntExprId, IntegerBinaryOperator, IntegerExpression, Mir, Node, ParameterId,
    RealBinaryOperator, RealExprId, RealExpression, StrExprId, StringExpression, UnaryOperator,
    VariableId,
};
use vstd::pervasive::VecAdditionalExecFns;

verus! {

/// The resolver that answers every question with "unknown": folding then
/// uses literals and algebraic identities alone.
pub struct NoConstResolution;

impl ConstResolver for NoConstResolution {
    open spec fn real_var_spec(&self, var: VariableId) -> Option<u64> {
        None
    }

    open spec fn int_var_spec(&self, var: VariableId) -> Option<i64> {
        None
    }

    open spec fn str_var_spec(&self, var: VariableId) -> Option<Seq<char>> {
        None
    }

    open spec fn real_param_spec(&self, param: ParameterId) -> Option<u64> {
        None
    }

    open spec fn int_param_spec(&self, param: ParameterId) -> Option<i64> {
        None
    }

    open spec fn str_param_spec(&self, param: ParameterId) -> Option<Seq<char>> {
        None
    }

    fn real_variable_value(&self, var: VariableId) -> Option<u64> {
        None
    }

    fn int_variable_value(&self, var: VariableId) -> Option<i64> {
        None
    }

    fn str_variable_value(&self, var: VariableId) -> Option<String> {
        None
    }

    fn real_parameter_value(&self, param: ParameterId) -> Option<u64> {
        None
    }

    fn int_parameter_value(&self, param: ParameterId) -> Option<i64> {
        None
    }

    fn str_parameter_value(&self, param: ParameterId) -> Option<String> {
        None
    }
}

/// The first value bound to a key in an association list.
pub open spec fn assoc_find<V>(s: Seq<(u32, V)>, k: u32) -> Option<V>
    decreases s.len(),
{
    if s.len() == 0 {
        None
    } else if s[0].0 == k {
        Some(s[0].1)
    } else {
        assoc_find(s.drop_first(), k)
    }
}

fn assoc_find_copy<V: Copy>(v: &Vec<(u32, V)>, k: u32) -> (r: Option<V>)
    ensures
        r == assoc_find(v@, k),
{
    let mut i: usize = 0;
    proof {
        assert(v@.skip(0) =~= v@);
    }
    while i < v.len()
        invariant
            i <= v@.len(),
            assoc_find(v@, k) == assoc_find(v@.skip(i as int), k),
        decreases v@.len() - i,
    {
        proof {
            assert(v@.skip(i as int).drop_first() =~= v@.skip(i + 1 as int));
            assert(v@.skip(i as int)[0] == v@[i as int]);
        }
        if v[i].0 == k {
            return Some(v[i].1);
        }
        i += 1;
    }
    proof {
        assert(v@.skip(v@.len() as int).len() == 0);
    }
    None
}

fn assoc_find_string(v: &Vec<(u32, String)>, k: u32) -> (r: Option<String>)
    ensures
        r == assoc_find(v@, k),
{
    let mut i: usize = 0;
    proof {
        assert(v@.skip(0) =~= v@);
    }
    while i < v.len()
        invariant
            i <= v@.len(),
            assoc_find(v@, k) == assoc_find(v@.skip(i as int), k),
        decreases v@.len() - i,
    {
        proof {
            assert(v@.skip(i as int).drop_first() =~= v@.skip(i + 1 as int));
            assert(v@.skip(i as int)[0] == v@[i as int]);
        }
        if v[i].0 == k {
            let s = v[i].1.clone();
            return Some(s);
        }
        i += 1;
    }
    proof {
        assert(v@.skip(v@.len() as int).len() == 0);
    }
    None
}

pub open spec fn assoc_find_view(s: Seq<(u32, String)>, k: u32) -> Option<Seq<char>> {
    match assoc_find(s, k) {
        Some(v) => Some(v@),
        None => None,
    }
}

/// The integer expression raises a known literal zero to some power.
pub open spec fn pow_of_zero_int(st: crate::mir::ExprView, e: int) -> bool {
    match st.ints[e].contents {
        IntegerExpression::BinaryOperator(l, op, _) => op == IntegerBinaryOperator::Exponent
            && st.ints[l as int].contents == IntegerExpression::Literal(0i64),
        _ => false,
    }
}

/// The real expression raises a literal zero to some power.
pub open spec fn pow_of_zero_real(st: crate::mir::ExprView, e: int) -> bool {
    match st.reals[e].contents {
        RealExpression::BinaryOperator(l, op, _) => op == RealBinaryOperator::Exponent && match st.reals[l as int].contents {
            RealExpression::Literal(z) => crate::realbits::is_zero_bits(z),
            _ => false,
        },
        _ => false,
    }
}

/// A resolver backed by the constants a prior propagation pass discovered,
/// held as association lists from handle to value.
pub struct PropagatedConstants {
    pub real_vars: Vec<(VariableId, u64)>,
    pub int_vars: Vec<(VariableId, i64)>,
    pub str_vars: Vec<(VariableId, String)>,
    pub real_params: Vec<(ParameterId, u64)>,
    pub int_params: Vec<(ParameterId, i64)>,
    pub str_params: Vec<(ParameterId, String)>,
}

impl PropagatedConstants {
    pub fn new() -> (r: PropagatedConstants)
        ensures
            r.real_vars@.len() == 0,
            r.int_vars@.len() == 0,
            r.str_vars@.len() == 0,
            r.real_params@.len() == 0,
            r.int_params@.len() == 0,
            r.str_params@.len() == 0,
    {
        PropagatedConstants {
            real_vars: Vec::new(),
            int_vars: Vec::new(),
            str_vars: Vec::new(),
            real_params: Vec::new(),
            int_params: Vec::new(),
            str_params: Vec::new(),
        }
    }
}

impl ConstResolver for PropagatedConstants {
    open spec fn real_var_spec(&self, var: VariableId) -> Option<u64> {
        assoc_find(self.real_vars@, var)
    }

    open spec fn int_var_spec(&self, var: VariableId) -> Option<i64> {
        assoc_find(self.int_vars@, var)
    }

    open spec fn str_var_spec(&self, var: VariableId) -> Option<Seq<char>> {
        assoc_find_view(self.str_vars@, var)
    }

    open spec fn real_param_spec(&self, param: ParameterId) -> Option<u64> {
        assoc_find(self.real_params@, param)
    }

    open spec fn int_param_spec(&self, param: ParameterId) -> Option<i64> {
        assoc_find(self.int_params@, param)
    }

    open spec fn str_param_spec(&self, param: ParameterId) -> Option<Seq<char>> {
        assoc_find_view(self.str_params@, param)
    }

    fn real_variable_value(&self, var: VariableId) -> Option<u64> {
        assoc_find_copy(&self.real_vars, var)
    }

    fn int_variable_value(&self, var: VariableId) -> Option<i64> {
        assoc_find_copy(&self.int_vars, var)
    }

    fn str_variable_value(&self, var: VariableId) -> Option<String> {
        assoc_find_string(&self.str_vars, var)
    }

    fn real_parameter_value(&self, param: ParameterId) -> Option<u64> {
        assoc_find_copy(&self.real_params, param)
    }

    fn int_parameter_value(&self, param: ParameterId) -> Option<i64> {
        assoc_find_copy(&self.int_params, param)
    }

    fn str_parameter_value(&self, param: ParameterId) -> Option<String> {
        assoc_find_string(&self.str_params, param)
    }
}

/// Truncating 64-bit division; the one overflowing case wraps, as
/// two's-complement arithmetic does.
pub fn exec_div_wrap(a: i64, b: i64) -> (r: i64)
    requires
        b != 0,
    ensures
        r == div_wrap(a, b),
{
    if a == i64::MIN && b == -1 {
        proof {
            assert(trunc_div(a as int, b as int) == 0x8000000000000000int) by {
                assert(abs_int(a as int) == 0x8000000000000000int);
                assert(abs_int(b as int) == 1int);
                vstd::arithmetic::div_mod::lemma_div_basics(0x8000000000000000int);
            }
        }
        i64::MIN
    } else {
        let la: u64 = if a >= 0 {
            a as u64
        } else {
            (-(a as i128)) as u64
        };
        let lb: u64 = if b >= 0 {
            b as u64
        } else {
            (-(b as i128)) as u64
        };
        let q: u64 = la / lb;
        let neg: bool = (a < 0) != (b < 0);
        proof {
            assert(la == abs_int(a as int));
            assert(lb == abs_int(b as int));
            assert(q <= la) by {
                vstd::arithmetic::div_mod::lemma_div_is_ordered_by_denominator(
                    la as int,
                    1,
                    lb as int,
                );
            }
        }
        if neg {
            (-(q as i128)) as i64
        } else {
            proof {
                assert(q < 0x8000000000000000) by {
                    if q >= 0x8000000000000000 {
                        vstd::arithmetic::div_mod::lemma_fundamental_div_mod(la as int, lb as int);
                        assert(la as int == lb as int * (la as int / lb as int) + (la as int % lb
                            as int));
                        if lb >= 2 {
                            assert(lb as int * q as int >= 2 * q as int) by (nonlinear_arith)
                                requires
                                    lb >= 2,
                                    q >= 0,
                            ;
                        }
                        assert(lb == 1);
                        assert(la == q);
                        assert(a == i64::MIN);
                        assert(b == -1);
                    }
                }
            }
            q as i64
        }
    }
}

/// Remainder of truncating 64-bit division.
pub fn exec_rem_trunc(a: i64, b: i64) -> (r: i64)
    requires
        b != 0,
    ensures
        r == rem_trunc(a, b),
{
    let la: u64 = if a >= 0 {
        a as u64
    } else {
        (-(a as i128)) as u64
    };
    let lb: u64 = if b >= 0 {
        b as u64
    } else {
        (-(b as i128)) as u64
    };
    let m: u64 = la % lb;
    proof {
        assert(la == abs_int(a as int));
        assert(lb == abs_int(b as int));
        assert(m < lb) by {
            vstd::arithmetic::div_mod::lemma_mod_bound(la as int, lb as int);
        }
        assert(lb <= 0x8000000000000000);
    }
    if a < 0 {
        (-(m as i128)) as i64
    } else {
        m as i64
    }
}

/// Exponentiation over two's-complement 64-bit values.
pub fn exec_pow_wrap(base: i64, exp: u32) -> (r: i64)
    ensures
        r == pow_wrap(base, exp as nat),
{
    let mut acc: i64 = 1;
    let mut i: u32 = 0;
    while i < exp
        invariant
            i <= exp,
            acc == pow_wrap(base, i as nat),
        decreases exp - i,
    {
        acc = acc.wrapping_mul(base);
        i += 1;
    }
    acc
}

/// The value of an integer binary operator on the operand outcomes,
/// including the algebraic short-circuits.
pub fn exec_int_binop_value(lv: Option<i64>, op: IntegerBinaryOperator, rv: Option<i64>) -> (r:
    Option<i64>)
    ensures
        r == crate::fold_spec::int_binop_value(lv, op, rv),
{
    match op {
        IntegerBinaryOperator::Sum => match (lv, rv) {
            (Some(l), Some(r)) => Some(l.wrapping_add(r)),
            _ => None,
        },
        IntegerBinaryOperator::Subtract => match (lv, rv) {
            (Some(l), Some(r)) => Some(l.wrapping_sub(r)),
            _ => None,
        },
        IntegerBinaryOperator::Multiply => match (lv, rv) {
            (None, Some(r)) => if r == 0 {
                Some(0)
            } else {
                None
            },
            (Some(l), None) => if l == 0 {
                Some(0)
            } else {
                None
            },
            (Some(l), Some(r)) => Some(l.wrapping_mul(r)),
            _ => None,
        },
        IntegerBinaryOperator::Divide => match (lv, rv) {
            (Some(l), None) => if l == 0 {
                Some(0)
            } else {
                None
            },
            (Some(l), Some(r)) => if r == 0 {
                None
            } else {
                Some(exec_div_wrap(l, r))
            },
            _ => None,
        },
        IntegerBinaryOperator::Exponent => match rv {
            Some(e) => if e < 0 {
                Some(0)
            } else if e > u32::MAX as i64 {
                match lv {
                    Some(b) => if b == 0 {
                        Some(0)
                    } else if b == 1 {
                        Some(1)
                    } else {
                        None
                    },
                    None => None,
                }
            } else {
                match lv {
                    Some(b) => if e == 0 {
                        Some(0)
                    } else if b == 0 {
                        Some(0)
                    } else if b == 1 {
                        Some(1)
                    } else {
                        Some(exec_pow_wrap(b, e as u32))
                    },
                    None => if e == 0 {
                        Some(0)
                    } else {
                        None
                    },
                }
            },
            None => match lv {
                Some(b) => if b == 0 {
                    Some(0)
                } else if b == 1 {
                    Some(1)
                } else {
                    None
                },
                None => None,
            },
        },
        IntegerBinaryOperator::Modulus => match (lv, rv) {
            (Some(l), Some(r)) => if r == 0 {
                None
            } else {
                Some(exec_rem_trunc(l, r))
            },
            _ => None,
        },
        IntegerBinaryOperator::ShiftLeft => match (lv, rv) {
            (Some(l), Some(r)) => if 0 <= r && r < 64 {
                Some(l.wrapping_shl(r as u32))
            } else {
                None
            },
            _ => None,
        },
        IntegerBinaryOperator::ShiftRight => match (lv, rv) {
            (Some(l), Some(r)) => if 0 <= r && r < 64 {
                Some(l.wrapping_shr(r as u32))
            } else {
                None
            },
            _ => None,
        },
        IntegerBinaryOperator::Xor => match (lv, rv) {
            (Some(l), Some(r)) => Some(l ^ r),
            _ => None,
        },
        IntegerBinaryOperator::NXor => match (lv, rv) {
            (Some(l), Some(r)) => Some(!(l ^ r)),
            _ => None,
        },
        IntegerBinaryOperator::And => match (lv, rv) {
            (Some(l), _) if l == 0 => Some(0),
            (_, Some(r)) if r == 0 => Some(0),
            (Some(l), Some(r)) => Some(l & r),
            _ => None,
        },
        IntegerBinaryOperator::Or => match (lv, rv) {
            (Some(l), _) if l == i64::MAX => Some(i64::MAX),
            (_, Some(r)) if r == i64::MAX => Some(i64::MAX),
            (Some(l), Some(r)) => Some(l | r),
            _ => None,
        },
        IntegerBinaryOperator::LogicAnd => match (lv, rv) {
            (Some(l), _) if l == 0 => Some(0),
            (_, Some(r)) if r == 0 => Some(0),
            (Some(l), Some(r)) => Some(if l != 0 && r != 0 { 1 } else { 0 }),
            _ => None,
        },
        IntegerBinaryOperator::LogicOr => match (lv, rv) {
            (Some(l), _) if l != 0 => Some(1),
            (_, Some(r)) if r != 0 => Some(1),
            (Some(l), Some(r)) => Some(if l != 0 || r != 0 { 1 } else { 0 }),
            _ => None,
        },
    }
}

/// Replaces the contents of an integer node by a sound rewrite: the copied
/// contents of a strict subexpression with the same value, or a literal of
/// the node's own value. Stamps, spans, and every expression's value are
/// untouched.
fn rewrite_int<R: ConstResolver>(ex: &mut ExprArenas, resolver: &R, e: IntExprId, c: IntegerExpression)
    requires
        exprs_wf(old(ex)@),
        e < old(ex)@.ints.len(),
        crate::fold_spec::int_rewrite_ok(old(ex)@, resolver, e as int, c),
    ensures
        exprs_wf(final(ex)@),
        crate::fold_spec::shape_eq(old(ex)@, final(ex)@),
        final(ex)@.ints[e as int].contents == c,
        forall|i: int|
            0 <= i < old(ex)@.ints.len() && i != e ==> (#[trigger] final(ex)@.ints[i])
                == old(ex)@.ints[i],
        forall|i: int|
            0 <= i < old(ex)@.reals.len() ==> (#[trigger] final(ex)@.reals[i])
                == old(ex)@.reals[i],
        forall|i: int|
            0 <= i < old(ex)@.strs.len() ==> (#[trigger] final(ex)@.strs[i]) == old(ex)@.strs[i],
        forall|i: int|
            0 <= i < old(ex)@.ints.len() ==> (#[trigger] eval_int(final(ex)@, resolver, i)).val
                == eval_int(old(ex)@, resolver, i).val,
        forall|i: int|
            0 <= i < old(ex)@.reals.len() ==> (#[trigger] eval_real(final(ex)@, resolver, i)).val
                == eval_real(old(ex)@, resolver, i).val,
        forall|i: int|
            0 <= i < old(ex)@.strs.len() ==> (#[trigger] eval_str(final(ex)@, resolver, i)).val
                == eval_str(old(ex)@, resolver, i).val,
{
    let span = ex.ints[e as usize].span;
    let ord = ex.ints[e as usize].ord;
    ex.ints.set(e as usize, Node { contents: c, span, ord });
    proof {
        assert(crate::fold_spec::int_upd(old(ex)@, ex@, resolver, e as int));
        crate::fold_spec::lemma_upd_preserves(old(ex)@, ex@, resolver);
    }
}

fn rewrite_real<R: ConstResolver>(ex: &mut ExprArenas, resolver: &R, e: RealExprId, c: RealExpression)
    requires
        exprs_wf(old(ex)@),
        e < old(ex)@.reals.len(),
        crate::fold_spec::real_rewrite_ok(old(ex)@, resolver, e as int, c),
    ensures
        exprs_wf(final(ex)@),
        crate::fold_spec::shape_eq(old(ex)@, final(ex)@),
        final(ex)@.reals[e as int].contents == c,
        forall|i: int|
            0 <= i < old(ex)@.reals.len() && i != e ==> (#[trigger] final(ex)@.reals[i])
                == old(ex)@.reals[i],
        forall|i: int|
            0 <= i < old(ex)@.ints.len() ==> (#[trigger] final(ex)@.ints[i]) == old(ex)@.ints[i],
        forall|i: int|
            0 <= i < old(ex)@.strs.len() ==> (#[trigger] final(ex)@.strs[i]) == old(ex)@.strs[i],
        forall|i: int|
            0 <= i < old(ex)@.ints.len() ==> (#[trigger] eval_int(final(ex)@, resolver, i)).val
                == eval_int(old(ex)@, resolver, i).val,
        forall|i: int|
            0 <= i < old(ex)@.reals.len() ==> (#[trigger] eval_real(final(ex)@, resolver, i)).val
                == eval_real(old(ex)@, resolver, i).val,
        forall|i: int|
            0 <= i < old(ex)@.strs.len() ==> (#[trigger] eval_str(final(ex)@, resolver, i)).val
                == eval_str(old(ex)@, resolver, i).val,
{
    let span = ex.reals[e as usize].span;
    let ord = ex.reals[e as usize].ord;
    ex.reals.set(e as usize, Node { contents: c, span, ord });
    proof {
        assert(crate::fold_spec::real_upd(old(ex)@, ex@, resolver, e as int));
        crate::fold_spec::lemma_upd_preserves(old(ex)@, ex@, resolver);
    }
}

fn rewrite_str<R: ConstResolver>(ex: &mut ExprArenas, resolver: &R, e: StrExprId, c: StringExpression)
    requires
        exprs_wf(old(ex)@),
        e < old(ex)@.strs.len(),
        crate::fold_spec::str_rewrite_ok(old(ex)@, resolver, e as int, c),
    ensures
        exprs_wf(final(ex)@),
        crate::fold_spec::shape_eq(old(ex)@, final(ex)@),
        final(ex)@.strs[e as int].contents == c,
        forall|i: int|
            0 <= i < old(ex)@.strs.len() && i != e ==> (#[trigger] final(ex)@.strs[i])
                == old(ex)@.strs[i],
        forall|i: int|
            0 <= i < old(ex)@.ints.len() ==> (#[trigger] final(ex)@.ints[i]) == old(ex)@.ints[i],
        forall|i: int|
            0 <= i < old(ex)@.reals.len() ==> (#[trigger] final(ex)@.reals[i])
                == old(ex)@.reals[i],
        forall|i: int|
            0 <= i < old(ex)@.ints.len() ==> (#[trigger] eval_int(final(ex)@, resolver, i)).val
                == eval_int(old(ex)@, resolver, i).val,
        forall|i: int|
            0 <= i < old(ex)@.reals.len() ==> (#[trigger] eval_real(final(ex)@, resolver, i)).val
                == eval_real(old(ex)@, resolver, i).val,
        forall|i: int|
            0 <= i < old(ex)@.strs.len() ==> (#[trigger] eval_str(final(ex)@, resolver, i)).val
                == eval_str(old(ex)@, resolver, i).val,
{
    let span = ex.strs[e as usize].span;
    let ord = ex.strs[e as usize].ord;
    ex.strs.set(e as usize, Node { contents: c, span, ord });
    proof {
        assert(crate::fold_spec::str_upd(old(ex)@, ex@, resolver, e as int));
        crate::fold_spec::lemma_upd_preserves(old(ex)@, ex@, resolver);
    }
}

/// The integer constant folder. In mutating mode every fully evaluated
/// node is rewritten to its literal and the algebraic identities rewrite
/// partially known nodes to the surviving operand; in reading mode the
/// arenas are left untouched and the raised lints match the evaluation
/// model exactly. Either way the returned value is the one the evaluation
/// model assigns, and no expression's value anywhere in the arenas
/// changes.
#[verifier::rlimit(100)]
fn fold_int_expr<R: ConstResolver>(
    ex: &mut ExprArenas,
    lints: &mut Vec<ConstantOverflow>,
    resolver: &R,
    e: IntExprId,
    mutate: bool,
) -> (res: Option<i64>)
    requires
        exprs_wf(old(ex)@),
        e < old(ex)@.ints.len(),
    ensures
        exprs_wf(final(ex)@),
        crate::fold_spec::shape_eq(old(ex)@, final(ex)@),
        res == eval_int(old(ex)@, resolver, e as int).val,
        forall|i: int|
            0 <= i < old(ex)@.ints.len() ==> (#[trigger] eval_int(final(ex)@, resolver, i)).val
                == eval_int(old(ex)@, resolver, i).val,
        forall|i: int|
            0 <= i < old(ex)@.reals.len() ==> (#[trigger] eval_real(final(ex)@, resolver, i)).val
                == eval_real(old(ex)@, resolver, i).val,
        forall|i: int|
            0 <= i < old(ex)@.strs.len() ==> (#[trigger] eval_str(final(ex)@, resolver, i)).val
                == eval_str(old(ex)@, resolver, i).val,
        forall|i: int|
            0 <= i < old(ex)@.ints.len() && old(ex)@.ints[i].contents is Literal ==> (
            #[trigger] final(ex)@.ints[i]).contents == old(ex)@.ints[i].contents,
        forall|i: int|
            0 <= i < old(ex)@.reals.len() && old(ex)@.reals[i].contents is Literal ==> (
            #[trigger] final(ex)@.reals[i]).contents == old(ex)@.reals[i].contents,
        forall|i: int|
            0 <= i < old(ex)@.strs.len() && old(ex)@.strs[i].contents is Literal ==> (
            #[trigger] final(ex)@.strs[i]).contents == old(ex)@.strs[i].contents,
        old(lints)@.is_prefix_of(final(lints)@),
        !mutate ==> final(ex)@ == old(ex)@ && final(lints)@ == old(lints)@ + eval_int(
            old(ex)@,
            resolver,
            e as int,
        ).lints,
        old(ex)@.ints[e as int].contents is Literal ==> final(ex)@ == old(ex)@ && final(lints)@
            == old(lints)@,
        mutate && res is Some ==> final(ex)@.ints[e as int].contents
            == IntegerExpression::Literal(res->0),
        forall|l: u32, rr: u32|
            #![trigger old(ex)@.ints[l as int], old(ex)@.ints[rr as int]]
            old(ex)@.ints[e as int].contents == IntegerExpression::BinaryOperator(
                l,
                IntegerBinaryOperator::Sum,
                rr,
            ) && old(ex)@.ints[rr as int].contents == IntegerExpression::Literal(0i64) ==> res
                == eval_int(old(ex)@, resolver, l as int).val && (mutate && res is None
                ==> final(ex)@.ints[e as int].contents == final(ex)@.ints[l as int].contents),
        forall|l: u32, rr: u32|
            #![trigger old(ex)@.ints[l as int], old(ex)@.ints[rr as int]]
            old(ex)@.ints[e as int].contents == IntegerExpression::BinaryOperator(
                l,
                IntegerBinaryOperator::Sum,
                rr,
            ) && old(ex)@.ints[l as int].contents == IntegerExpression::Literal(0i64) ==> res
                == eval_int(old(ex)@, resolver, rr as int).val && (mutate && res is None
                ==> final(ex)@.ints[e as int].contents == final(ex)@.ints[rr as int].contents),
        forall|l: u32, rr: u32|
            #![trigger old(ex)@.ints[l as int], old(ex)@.ints[rr as int]]
            old(ex)@.ints[e as int].contents == IntegerExpression::BinaryOperator(
                l,
                IntegerBinaryOperator::Multiply,
                rr,
            ) && (old(ex)@.ints[rr as int].contents == IntegerExpression::Literal(0i64) || old(
                ex,
            )@.ints[l as int].contents == IntegerExpression::Literal(0i64)) ==> res == Some(0i64),
        pow_of_zero_int(old(ex)@, e as int) ==> res == Some(0i64),
        forall|l: u32, rr: u32|
            #![trigger old(ex)@.ints[l as int], old(ex)@.ints[rr as int]]
            old(ex)@.ints[e as int].contents == IntegerExpression::BinaryOperator(
                l,
                IntegerBinaryOperator::Divide,
                rr,
            ) && old(ex)@.ints[l as int].contents is Literal && old(ex)@.ints[rr as int].contents
                == IntegerExpression::Literal(0i64) ==> res is None && final(lints)@ == old(
                lints,
            )@.push(ConstantOverflow { span: old(ex)@.ints[e as int].span }),
        crate::fold_spec::int_rewrites_hold(
            old(ex)@,
            final(ex)@,
            resolver,
            e as int,
            res,
            old(lints)@,
            final(lints)@,
            mutate,
        ),
    decreases ex.ints@[e as int].ord, 1nat,
{
    let ghost st0 = ex@;
    proof {
        assert(crate::mir::int_contents_wf(st0, st0.ints[e as int].contents, st0.ints[e as int].ord));
    }
    let node_span = ex.ints[e as usize].span;
    let c = ex.ints[e as usize].contents;
    let res: Option<i64> = match c {
        IntegerExpression::Literal(v) => {
            return Some(v);
        },
        IntegerExpression::BinaryOperator(l, op, rr) => {
            let lv = fold_int_expr(ex, lints, resolver, l, mutate);
            let ghost st1 = ex@;
            let rv = fold_int_expr(ex, lints, resolver, rr, mutate);
            let ghost st2 = ex@;
            proof {
                assert(eval_int(st1, resolver, rr as int).val == eval_int(
                    st0,
                    resolver,
                    rr as int,
                ).val);
            }
            let ghost lints_mid = lints@;
            match op {
                IntegerBinaryOperator::Divide => {
                    match rv {
                        Some(x) => if x == 0 {
                            lints.push(ConstantOverflow { span: node_span });
                        },
                        None => {},
                    }
                },
                IntegerBinaryOperator::Exponent => {
                    match rv {
                        Some(x) => if x > 0xFFFFFFFFi64 {
                            lints.push(ConstantOverflow { span: node_span });
                        },
                        None => {},
                    }
                },
                _ => {},
            }
            proof {
                if rv == Some(0i64) && op == IntegerBinaryOperator::Divide {
                    assert(old(lints)@.is_prefix_of(lints_mid));
                    assert(lints@ == lints_mid.push(
                        ConstantOverflow { span: st0.ints[e as int].span },
                    ));
                }
                if op == IntegerBinaryOperator::Exponent {
                    match rv {
                        Some(x) => if x > 0xFFFFFFFFi64 {
                            assert(old(lints)@.is_prefix_of(lints_mid));
                            assert(lints@ == lints_mid.push(
                                ConstantOverflow { span: st0.ints[e as int].span },
                            ));
                        },
                        None => {},
                    }
                }
            }
            let val = exec_int_binop_value(lv, op, rv);
            if mutate && val.is_none() {
                match op {
                    IntegerBinaryOperator::Sum => {
                        if lv.is_none() && rv == Some(0i64) {
                            let cl = ex.ints[l as usize].contents;
                            rewrite_int(ex, resolver, e, cl);
                        } else if lv == Some(0i64) && rv.is_none() {
                            let cr = ex.ints[rr as usize].contents;
                            rewrite_int(ex, resolver, e, cr);
                        }
                    },
                    IntegerBinaryOperator::Subtract => {
                        if lv.is_none() && rv == Some(0i64) {
                            let cl = ex.ints[l as usize].contents;
                            rewrite_int(ex, resolver, e, cl);
                        }
                    },
                    IntegerBinaryOperator::Multiply => {
                        if lv.is_none() && rv == Some(1i64) {
                            let cl = ex.ints[l as usize].contents;
                            rewrite_int(ex, resolver, e, cl);
                        } else if lv == Some(1i64) && rv.is_none() {
                            let cr = ex.ints[rr as usize].contents;
                            rewrite_int(ex, resolver, e, cr);
                        }
                    },
                    IntegerBinaryOperator::Divide => {
                        if lv.is_none() && rv == Some(1i64) {
                            let cl = ex.ints[l as usize].contents;
                            rewrite_int(ex, resolver, e, cl);
                        }
                    },
                    IntegerBinaryOperator::Exponent => {
                        if lv.is_none() && rv == Some(1i64) {
                            let cl = ex.ints[l as usize].contents;
                            rewrite_int(ex, resolver, e, cl);
                        }
                    },
                    IntegerBinaryOperator::And => {
                        if lv == Some(i64::MAX) && rv.is_none() {
                            let cr = ex.ints[rr as usize].contents;
                            rewrite_int(ex, resolver, e, cr);
                        } else if lv.is_none() && rv == Some(i64::MAX) {
                            let cl = ex.ints[l as usize].contents;
                            rewrite_int(ex, resolver, e, cl);
                        }
                    },
                    IntegerBinaryOperator::Or => {
                        if lv == Some(0i64) && rv.is_none() {
                            let cr = ex.ints[rr as usize].contents;
                            rewrite_int(ex, resolver, e, cr);
                        } else if lv.is_none() && rv == Some(0i64) {
                            let cl = ex.ints[l as usize].contents;
                            rewrite_int(ex, resolver, e, cl);
                        }
                    },
                    IntegerBinaryOperator::LogicAnd => {
                        match (lv, rv) {
                            (Some(x), None) if x != 0 => {
                                let cr = ex.ints[rr as usize].contents;
                                rewrite_int(ex, resolver, e, cr);
                            },
                            (None, Some(x)) if x != 0 => {
                                let cl = ex.ints[l as usize].contents;
                                rewrite_int(ex, resolver, e, cl);
                            },
                            _ => {},
                        }
                    },
                    IntegerBinaryOperator::LogicOr => {
                        match (lv, rv) {
                            (Some(x), None) if x == 0 => {
                                let cr = ex.ints[rr as usize].contents;
                                rewrite_int(ex, resolver, e, cr);
                            },
                            (None, Some(x)) if x == 0 => {
                                let cl = ex.ints[l as usize].contents;
                                rewrite_int(ex, resolver, e, cl);
                            },
                            _ => {},
                        }
                    },
                    _ => {},
                }
            }
            proof {
                assert(crate::fold_spec::int_rewrites_hold(
                    st0,
                    ex@,
                    resolver,
                    e as int,
                    val,
                    old(lints)@,
                    lints@,
                    mutate,
                ));
            }
            val
        },
        IntegerExpression::UnaryOperator(op, a) => {
            let av = fold_int_expr(ex, lints, resolver, a, mutate);
            match av {
                Some(v) => Some(
                    match op {
                        UnaryOperator::BitNegate => !v,
                        UnaryOperator::LogicNegate => !v,
                        UnaryOperator::ArithmeticNegate => 0i64.wrapping_sub(v),
                        UnaryOperator::ExplicitPositive => v,
                    },
                ),
                None => None,
            }
        },
        IntegerExpression::Condition(c0, t, f) => {
            let cv = fold_int_expr(ex, lints, resolver, c0, mutate);
            let ghost st1 = ex@;
            match cv {
                Some(cvv) => {
                    let chosen: IntExprId = if cvv != 0 {
                        t
                    } else {
                        f
                    };
                    let bv = fold_int_expr(ex, lints, resolver, chosen, mutate);
                    if mutate && bv.is_none() {
                        let cc = ex.ints[chosen as usize].contents;
                        rewrite_int(ex, resolver, e, cc);
                    }
                    bv
                },
                None => None,
            }
        },
        IntegerExpression::IntegerComparison(l, op, rr) => {
            let lv = fold_int_expr(ex, lints, resolver, l, mutate);
            let rv = fold_int_expr(ex, lints, resolver, rr, mutate);
            match (lv, rv) {
                (Some(a), Some(b)) => Some(
                    match op {
                        ComparisonOperator::LessThan => if a < b {
                            1i64
                        } else {
                            0i64
                        },
                        ComparisonOperator::LessEqual => if a <= b {
                            1i64
                        } else {
                            0i64
                        },
                        ComparisonOperator::GreaterThan => if a > b {
                            1i64
                        } else {
                            0i64
                        },
                        ComparisonOperator::GreaterEqual => if a >= b {
                            1i64
                        } else {
                            0i64
                        },
                        ComparisonOperator::LogicEqual => if a == b {
                            1i64
                        } else {
                            0i64
                        },
                        ComparisonOperator::LogicNotEqual => if a != b {
                            1i64
                        } else {
                            0i64
                        },
                    },
                ),
                _ => None,
            }
        },
        IntegerExpression::RealComparison(l, op, rr) => {
            let lv = fold_real_expr(ex, lints, resolver, l, mutate);
            let rv = fold_real_expr(ex, lints, resolver, rr, mutate);
            match (lv, rv) {
                (Some(a), Some(b)) => Some(
                    match op {
                        ComparisonOperator::LessThan => if crate::realbits::real_lt(a, b) {
                            1i64
                        } else {
                            0i64
                        },
                        ComparisonOperator::LessEqual => if crate::realbits::real_le(a, b) {
                            1i64
                        } else {
                            0i64
                        },
                        ComparisonOperator::GreaterThan => if crate::realbits::real_lt(b, a) {
                            1i64
                        } else {
                            0i64
                        },
                        ComparisonOperator::GreaterEqual => if crate::realbits::real_le(b, a) {
                            1i64
                        } else {
                            0i64
                        },
                        ComparisonOperator::LogicEqual => if crate::realbits::real_approx_eq(
                            a,
                            b,
                        ) {
                            1i64
                        } else {
                            0i64
                        },
                        ComparisonOperator::LogicNotEqual => if crate::realbits::real_approx_eq(
                            a,
                            b,
                        ) {
                            0i64
                        } else {
                            1i64
                        },
                    },
                ),
                _ => None,
            }
        },
        IntegerExpression::VariableReference(v) => resolver.int_variable_value(v),
        IntegerExpression::ParameterReference(p) => resolver.int_parameter_value(p),
        IntegerExpression::RealCast(a) => {
            let av = fold_real_expr(ex, lints, resolver, a, mutate);
            match av {
                Some(v) => Some(crate::realbits::real_round_to_int(v)),
                None => None,
            }
        },
        IntegerExpression::PortConnected(_) => None,
        IntegerExpression::ParamGiven(_) => None,
        IntegerExpression::PortReference(_) => None,
        IntegerExpression::NetReference(_) => None,
        IntegerExpression::StringEq(l, rr) => {
            let lv = fold_str_expr(ex, lints, resolver, l, mutate);
            let rv = fold_str_expr(ex, lints, resolver, rr, mutate);
            match (lv, rv) {
                (Some(a), Some(b)) => Some(
                    if a == b {
                        1i64
                    } else {
                        0i64
                    },
                ),
                _ => None,
            }
        },
        IntegerExpression::StringNEq(l, rr) => {
            let lv = fold_str_expr(ex, lints, resolver, l, mutate);
            let rv = fold_str_expr(ex, lints, resolver, rr, mutate);
            match (lv, rv) {
                (Some(a), Some(b)) => Some(
                    if a != b {
                        1i64
                    } else {
                        0i64
                    },
                ),
                _ => None,
            }
        },
        IntegerExpression::Min(l, rr) => {
            let lv = fold_int_expr(ex, lints, resolver, l, mutate);
            let rv = fold_int_expr(ex, lints, resolver, rr, mutate);
            match (lv, rv) {
                (Some(a), Some(b)) => Some(
                    if a < b {
                        a
                    } else {
                        b
                    },
                ),
                _ => None,
            }
        },
        IntegerExpression::Max(l, rr) => {
            let lv = fold_int_expr(ex, lints, resolver, l, mutate);
            let rv = fold_int_expr(ex, lints, resolver, rr, mutate);
            match (lv, rv) {
                (Some(a), Some(b)) => Some(
                    if a > b {
                        a
                    } else {
                        b
                    },
                ),
                _ => None,
            }
        },
        IntegerExpression::Abs(a) => {
            let av = fold_int_expr(ex, lints, resolver, a, mutate);
            match av {
                Some(v) => Some(
                    if v < 0 {
                        0i64.wrapping_sub(v)
                    } else {
                        v
                    },
                ),
                None => None,
            }
        },
    };
    if mutate {
        match res {
            Some(v) => {
                rewrite_int(ex, resolver, e, IntegerExpression::Literal(v));
            },
            None => {},
        }
    }
    res
}

/// The real constant folder over binary64 bit patterns.
#[verifier::rlimit(100)]
fn fold_real_expr<R: ConstResolver>(
    ex: &mut ExprArenas,
    lints: &mut Vec<ConstantOverflow>,
    resolver: &R,
    e: RealExprId,
    mutate: bool,
) -> (res: Option<u64>)
    requires
        exprs_wf(old(ex)@),
        e < old(ex)@.reals.len(),
    ensures
        exprs_wf(final(ex)@),
        crate::fold_spec::shape_eq(old(ex)@, final(ex)@),
        res == eval_real(old(ex)@, resolver, e as int).val,
        forall|i: int|
            0 <= i < old(ex)@.ints.len() ==> (#[trigger] eval_int(final(ex)@, resolver, i)).val
                == eval_int(old(ex)@, resolver, i).val,
        forall|i: int|
            0 <= i < old(ex)@.reals.len() ==> (#[trigger] eval_real(final(ex)@, resolver, i)).val
                == eval_real(old(ex)@, resolver, i).val,
        forall|i: int|
            0 <= i < old(ex)@.strs.len() ==> (#[trigger] eval_str(final(ex)@, resolver, i)).val
                == eval_str(old(ex)@, resolver, i).val,
        forall|i: int|
            0 <= i < old(ex)@.ints.len() && old(ex)@.ints[i].contents is Literal ==> (
            #[trigger] final(ex)@.ints[i]).contents == old(ex)@.ints[i].contents,
        forall|i: int|
            0 <= i < old(ex)@.reals.len() && old(ex)@.reals[i].contents is Literal ==> (
            #[trigger] final(ex)@.reals[i]).contents == old(ex)@.reals[i].contents,
        forall|i: int|
            0 <= i < old(ex)@.strs.len() && old(ex)@.strs[i].contents is Literal ==> (
            #[trigger] final(ex)@.strs[i]).contents == old(ex)@.strs[i].contents,
        old(lints)@.is_prefix_of(final(lints)@),
        !mutate ==> final(ex)@ == old(ex)@ && final(lints)@ == old(lints)@ + eval_real(
            old(ex)@,
            resolver,
            e as int,
        ).lints,
        old(ex)@.reals[e as int].contents is Literal ==> final(ex)@ == old(ex)@ && final(lints)@
            == old(lints)@,
        mutate && res is Some ==> final(ex)@.reals[e as int].contents
            == RealExpression::Literal(res->0),
        forall|l: u32, rr: u32, z: u64|
            #![trigger old(ex)@.reals[l as int], old(ex)@.reals[rr as int], crate::realbits::is_zero_bits(z)]
            old(ex)@.reals[e as int].contents == RealExpression::BinaryOperator(
                l,
                RealBinaryOperator::Sum,
                rr,
            ) && old(ex)@.reals[rr as int].contents == RealExpression::Literal(z)
                && crate::realbits::is_zero_bits(z) && eval_real(old(ex)@, resolver, l as int).val
                is None ==> res is None && (mutate ==> final(ex)@.reals[e as int].contents
                == final(ex)@.reals[l as int].contents),
        forall|l: u32, rr: u32, z: u64|
            #![trigger old(ex)@.reals[l as int], old(ex)@.reals[rr as int], crate::realbits::is_zero_bits(z)]
            old(ex)@.reals[e as int].contents == RealExpression::BinaryOperator(
                l,
                RealBinaryOperator::Multiply,
                rr,
            ) && old(ex)@.reals[rr as int].contents == RealExpression::Literal(z)
                && crate::realbits::is_zero_bits(z) && eval_real(old(ex)@, resolver, l as int).val
                is None ==> res == Some(crate::realbits::ZERO_BITS),
        pow_of_zero_real(old(ex)@, e as int) ==> res == Some(crate::realbits::ZERO_BITS),
        crate::fold_spec::real_rewrites_hold(
            old(ex)@,
            final(ex)@,
            resolver,
            e as int,
            res,
            mutate,
        ),
    decreases ex.reals@[e as int].ord, 1nat,
{
    let ghost st0 = ex@;
    proof {
        assert(crate::mir::real_contents_wf(
            st0,
            st0.reals[e as int].contents,
            st0.reals[e as int].ord,
        ));
    }
    let c = ex.reals[e as usize].contents;
    let res: Option<u64> = match c {
        RealExpression::Literal(v) => {
            return Some(v);
        },
        RealExpression::BinaryOperator(l, op, rr) => {
            let lv = fold_real_expr(ex, lints, resolver, l, mutate);
            let ghost st1 = ex@;
            let rv = fold_real_expr(ex, lints, resolver, rr, mutate);
            proof {
                assert(eval_real(st1, resolver, rr as int).val == eval_real(
                    st0,
                    resolver,
                    rr as int,
                ).val);
            }
            let val = exec_real_binop_value(lv, op, rv);
            if mutate && val.is_none() {
                match op {
                    RealBinaryOperator::Sum => {
                        match (lv, rv) {
                            (None, Some(z)) if crate::realbits::bits_is_zero(z) => {
                                let cl = ex.reals[l as usize].contents;
                                rewrite_real(ex, resolver, e, cl);
                            },
                            (Some(z), None) if crate::realbits::bits_is_zero(z) => {
                                let cr = ex.reals[rr as usize].contents;
                                rewrite_real(ex, resolver, e, cr);
                            },
                            _ => {},
                        }
                    },
                    RealBinaryOperator::Subtract => {
                        match (lv, rv) {
                            (None, Some(z)) if crate::realbits::bits_is_zero(z) => {
                                let cl = ex.reals[l as usize].contents;
                                rewrite_real(ex, resolver, e, cl);
                            },
                            _ => {},
                        }
                    },
                    RealBinaryOperator::Multiply => {
                        match (lv, rv) {
                            (None, Some(o)) if crate::realbits::bits_is_one(o) => {
                                let cl = ex.reals[l as usize].contents;
                                rewrite_real(ex, resolver, e, cl);
                            },
                            (Some(o), None) if crate::realbits::bits_is_one(o) => {
                                let cr = ex.reals[rr as usize].contents;
                                rewrite_real(ex, resolver, e, cr);
                            },
                            _ => {},
                        }
                    },
                    RealBinaryOperator::Divide => {
                        match (lv, rv) {
                            (None, Some(o)) if crate::realbits::bits_is_one(o) => {
                                let cl = ex.reals[l as usize].contents;
                                rewrite_real(ex, resolver, e, cl);
                            },
                            _ => {},
                        }
                    },
                    RealBinaryOperator::Exponent => {
                        match (lv, rv) {
                            (None, Some(o)) if crate::realbits::bits_is_one(o) => {
                                let cl = ex.reals[l as usize].contents;
                                rewrite_real(ex, resolver, e, cl);
                            },
                            _ => {},
                        }
                    },
                    RealBinaryOperator::Modulus => {},
                }
            }
            val
        },
        RealExpression::Negate(a) => {
            let av = fold_real_expr(ex, lints, resolver, a, mutate);
            match av {
                Some(v) => Some(crate::realbits::real_neg(v)),
                None => None,
            }
        },
        RealExpression::Condition(c0, t, f) => {
            let cv = fold_int_expr(ex, lints, resolver, c0, mutate);
            match cv {
                Some(cvv) => {
                    let chosen: RealExprId = if cvv != 0 {
                        t
                    } else {
                        f
                    };
                    let bv = fold_real_expr(ex, lints, resolver, chosen, mutate);
                    if mutate && bv.is_none() {
                        let cc = ex.reals[chosen as usize].contents;
                        rewrite_real(ex, resolver, e, cc);
                    }
                    bv
                },
                None => None,
            }
        },
        RealExpression::VariableReference(v) => resolver.real_variable_value(v),
        RealExpression::ParameterReference(p) => resolver.real_parameter_value(p),
        RealExpression::BranchAccess(_, _, _) => None,
        RealExpression::Noise(_, _) => None,
        RealExpression::BuiltInFunctionCall1p(call, a) => {
            let av = fold_real_expr(ex, lints, resolver, a, mutate);
            match av {
                Some(v) => match call {
                    BuiltInFunctionCall1p::Abs => Some(crate::realbits::real_abs(v)),
                    BuiltInFunctionCall1p::Floor => Some(crate::realbits::real_floor(v)),
                    BuiltInFunctionCall1p::Ceil => Some(crate::realbits::real_ceil(v)),
                    _ => None,
                },
                None => None,
            }
        },
        RealExpression::BuiltInFunctionCall2p(call, a, b) => {
            let lv = fold_real_expr(ex, lints, resolver, a, mutate);
            let ghost st1 = ex@;
            let rv = fold_real_expr(ex, lints, resolver, b, mutate);
            proof {
                assert(eval_real(st1, resolver, b as int).val == eval_real(
                    st0,
                    resolver,
                    b as int,
                ).val);
            }
            let val = match call {
                BuiltInFunctionCall2p::Pow => exec_real_pow_value(lv, rv),
                BuiltInFunctionCall2p::Max => match (lv, rv) {
                    (Some(x), Some(y)) => Some(crate::realbits::real_max(x, y)),
                    _ => None,
                },
                BuiltInFunctionCall2p::Min => match (lv, rv) {
                    (Some(x), Some(y)) => Some(crate::realbits::real_min(x, y)),
                    _ => None,
                },
                BuiltInFunctionCall2p::Hypot => None,
                BuiltInFunctionCall2p::ArcTan2 => None,
            };
            if mutate && val.is_none() {
                match call {
                    BuiltInFunctionCall2p::Pow => {
                        match (lv, rv) {
                            (None, Some(o)) if crate::realbits::bits_is_one(o) => {
                                let cl = ex.reals[a as usize].contents;
                                rewrite_real(ex, resolver, e, cl);
                            },
                            _ => {},
                        }
                    },
                    _ => {},
                }
            }
            val
        },
        RealExpression::Temperature => None,
        RealExpression::SimParam(_, _) => None,
        RealExpression::IntegerConversion(a) => {
            let av = fold_int_expr(ex, lints, resolver, a, mutate);
            match av {
                Some(v) => Some(crate::realbits::real_from_int(v)),
                None => None,
            }
        },
    };
    if mutate {
        match res {
            Some(v) => {
                rewrite_real(ex, resolver, e, RealExpression::Literal(v));
            },
            None => {},
        }
    }
    res
}

/// The string constant folder.
#[verifier::rlimit(100)]
fn fold_str_expr<R: ConstResolver>(
    ex: &mut ExprArenas,
    lints: &mut Vec<ConstantOverflow>,
    resolver: &R,
    e: StrExprId,
    mutate: bool,
) -> (res: Option<String>)
    requires
        exprs_wf(old(ex)@),
        e < old(ex)@.strs.len(),
    ensures
        exprs_wf(final(ex)@),
        crate::fold_spec::shape_eq(old(ex)@, final(ex)@),
        match (res, eval_str(old(ex)@, resolver, e as int).val) {
            (Some(s), Some(v)) => s@ == v,
            (None, None) => true,
            _ => false,
        },
        forall|i: int|
            0 <= i < old(ex)@.ints.len() ==> (#[trigger] eval_int(final(ex)@, resolver, i)).val
                == eval_int(old(ex)@, resolver, i).val,
        forall|i: int|
            0 <= i < old(ex)@.reals.len() ==> (#[trigger] eval_real(final(ex)@, resolver, i)).val
                == eval_real(old(ex)@, resolver, i).val,
        forall|i: int|
            0 <= i < old(ex)@.strs.len() ==> (#[trigger] eval_str(final(ex)@, resolver, i)).val
                == eval_str(old(ex)@, resolver, i).val,
        forall|i: int|
            0 <= i < old(ex)@.ints.len() && old(ex)@.ints[i].contents is Literal ==> (
            #[trigger] final(ex)@.ints[i]).contents == old(ex)@.ints[i].contents,
        forall|i: int|
            0 <= i < old(ex)@.reals.len() && old(ex)@.reals[i].contents is Literal ==> (
            #[trigger] final(ex)@.reals[i]).contents == old(ex)@.reals[i].contents,
        forall|i: int|
            0 <= i < old(ex)@.strs.len() && old(ex)@.strs[i].contents is Literal ==> (
            #[trigger] final(ex)@.strs[i]).contents == old(ex)@.strs[i].contents,
        old(lints)@.is_prefix_of(final(lints)@),
        !mutate ==> final(ex)@ == old(ex)@ && final(lints)@ == old(lints)@ + eval_str(
            old(ex)@,
            resolver,
            e as int,
        ).lints,
        old(ex)@.strs[e as int].contents is Literal ==> final(ex)@ == old(ex)@ && final(lints)@
            == old(lints)@,
        mutate ==> match res {
            Some(s) => final(ex)@.strs[e as int].contents == StringExpression::Literal(s),
            None => true,
        },
        match old(ex)@.strs[e as int].contents {
            StringExpression::Condition(c0, t, f) => match eval_int(
                old(ex)@,
                resolver,
                c0 as int,
            ).val {
                Some(cv) => {
                    let chosen = if cv != 0 {
                        t
                    } else {
                        f
                    };
                    mutate && res is None ==> final(ex)@.strs[e as int].contents
                        == final(ex)@.strs[chosen as int].contents
                },
                None => res is None,
            },
            _ => true,
        },
    decreases ex.strs@[e as int].ord, 1nat,
{
    let ghost st0 = ex@;
    proof {
        assert(crate::mir::str_contents_wf(
            st0,
            st0.strs[e as int].contents,
            st0.strs[e as int].ord,
        ));
    }
    let res: Option<String> = match &ex.strs[e as usize].contents {
        StringExpression::Literal(s) => {
            let v = clone_string(s);
            return Some(v);
        },
        StringExpression::Condition(c0, t, f) => {
            let (c0, t, f) = (*c0, *t, *f);
            let cv = fold_int_expr(ex, lints, resolver, c0, mutate);
            match cv {
                Some(cvv) => {
                    let chosen: StrExprId = if cvv != 0 {
                        t
                    } else {
                        f
                    };
                    let bv = fold_str_expr(ex, lints, resolver, chosen, mutate);
                    if mutate && bv.is_none() {
                        let cc = clone_str_contents(ex, chosen);
                        rewrite_str(ex, resolver, e, cc);
                    }
                    bv
                },
                None => None,
            }
        },
        StringExpression::VariableReference(v) => {
            let v = *v;
            resolver.str_variable_value(v)
        },
        StringExpression::ParameterReference(p) => {
            let p = *p;
            resolver.str_parameter_value(p)
        },
        StringExpression::SimParam(_) => None,
    };
    if mutate {
        match &res {
            Some(v) => {
                let lit = clone_string(v);
                rewrite_str(ex, resolver, e, StringExpression::Literal(lit));
            },
            None => {},
        }
    }
    res
}

fn clone_string(s: &String) -> (r: String)
    ensures
        r == *s,
{
    s.clone()
}

/// A copy of a string node's contents, value-equal to the source node's.
fn clone_str_contents(ex: &ExprArenas, e: StrExprId) -> (r: StringExpression)
    requires
        e < ex@.strs.len(),
    ensures
        r == ex@.strs[e as int].contents,
{
    match &ex.strs[e as usize].contents {
        StringExpression::Literal(s) => StringExpression::Literal(clone_string(s)),
        StringExpression::Condition(c0, t, f) => StringExpression::Condition(*c0, *t, *f),
        StringExpression::VariableReference(v) => StringExpression::VariableReference(*v),
        StringExpression::ParameterReference(p) => StringExpression::ParameterReference(*p),
        StringExpression::SimParam(n) => StringExpression::SimParam(*n),
    }
}

/// The value of a real binary operator on the operand outcomes.
fn exec_real_binop_value(lv: Option<u64>, op: RealBinaryOperator, rv: Option<u64>) -> (r: Option<
    u64,
>)
    ensures
        r == crate::fold_spec::real_binop_value(lv, op, rv),
{
    match op {
        RealBinaryOperator::Sum => match (lv, rv) {
            (Some(l), Some(r)) => Some(crate::realbits::real_add(l, r)),
            _ => None,
        },
        RealBinaryOperator::Subtract => match (lv, rv) {
            (Some(l), Some(r)) => Some(crate::realbits::real_sub(l, r)),
            _ => None,
        },
        RealBinaryOperator::Multiply => match (lv, rv) {
            (None, Some(r)) => if crate::realbits::bits_is_zero(r) {
                Some(crate::realbits::ZERO_BITS)
            } else {
                None
            },
            (Some(l), None) => if crate::realbits::bits_is_zero(l) {
                Some(crate::realbits::ZERO_BITS)
            } else {
                None
            },
            (Some(l), Some(r)) => Some(crate::realbits::real_mul(l, r)),
            _ => None,
        },
        RealBinaryOperator::Divide => match (lv, rv) {
            (Some(l), None) => if crate::realbits::bits_is_zero(l) {
                Some(crate::realbits::ZERO_BITS)
            } else {
                None
            },
            (Some(l), Some(r)) => Some(crate::realbits::real_div(l, r)),
            _ => None,
        },
        RealBinaryOperator::Exponent => exec_real_pow_value(lv, rv),
        RealBinaryOperator::Modulus => match (lv, rv) {
            (Some(l), Some(r)) => Some(crate::realbits::real_rem(l, r)),
            _ => None,
        },
    }
}

/// The algebraic short-circuits of the real power operator.
fn exec_real_pow_value(lv: Option<u64>, rv: Option<u64>) -> (r: Option<u64>)
    ensures
        r == crate::fold_spec::real_pow_value(lv, rv),
{
    match (lv, rv) {
        (_, Some(e)) if crate::realbits::bits_is_zero(e) => Some(crate::realbits::ZERO_BITS),
        (Some(b), _) if crate::realbits::bits_is_zero(b) => Some(crate::realbits::ZERO_BITS),
        (Some(b), _) if crate::realbits::bits_is_one(b) => Some(crate::realbits::ONE_BITS),
        _ => None,
    }
}

impl Mir {
    /// Tries to fold as many constants in the integer expression as
    /// possible, rewriting fully evaluated subexpressions to literals and
    /// applying the algebraic identities to partially known ones. Returns
    /// the expression's value exactly when it is fully statically
    /// evaluable; lints raised on the way are appended to `lints`.
    pub fn constant_fold_int_expr<R: ConstResolver>(
        &mut self,
        expr: IntExprId,
        resolver: &R,
        lints: &mut Vec<ConstantOverflow>,
    ) -> (r: Option<i64>)
        requires
            exprs_wf(old(self).exprs@),
            expr < old(self).exprs@.ints.len(),
        ensures
            exprs_wf(final(self).exprs@),
            crate::fold_spec::shape_eq(old(self).exprs@, final(self).exprs@),
            r == eval_int(old(self).exprs@, resolver, expr as int).val,
            forall|i: int|
                0 <= i < old(self).exprs@.ints.len() ==> (#[trigger] eval_int(
                    final(self).exprs@,
                    resolver,
                    i,
                )).val == eval_int(old(self).exprs@, resolver, i).val,
            forall|i: int|
                0 <= i < old(self).exprs@.reals.len() ==> (#[trigger] eval_real(
                    final(self).exprs@,
                    resolver,
                    i,
                )).val == eval_real(old(self).exprs@, resolver, i).val,
            forall|i: int|
                0 <= i < old(self).exprs@.strs.len() ==> (#[trigger] eval_str(
                    final(self).exprs@,
                    resolver,
                    i,
                )).val == eval_str(old(self).exprs@, resolver, i).val,
            final(self).statements == old(self).statements,
            final(self).derivatives == old(self).derivatives,
            final(self).branches == old(self).branches,
            old(lints)@.is_prefix_of(final(lints)@),
            r is Some ==> final(self).exprs@.ints[expr as int].contents
                == IntegerExpression::Literal(r->0),
            forall|l: u32, rr: u32|
                #![trigger old(self).exprs@.ints[l as int], old(self).exprs@.ints[rr as int]]
                old(self).exprs@.ints[expr as int].contents == IntegerExpression::BinaryOperator(
                    l,
                    IntegerBinaryOperator::Sum,
                    rr,
                ) && old(self).exprs@.ints[rr as int].contents == IntegerExpression::Literal(0i64)
                    ==> r == eval_int(old(self).exprs@, resolver, l as int).val && (r is None
                    ==> final(self).exprs@.ints[expr as int].contents == final(self).exprs@.ints[l as int].contents),
            forall|l: u32, rr: u32|
                #![trigger old(self).exprs@.ints[l as int], old(self).exprs@.ints[rr as int]]
                old(self).exprs@.ints[expr as int].contents == IntegerExpression::BinaryOperator(
                    l,
                    IntegerBinaryOperator::Multiply,
                    rr,
                ) && (old(self).exprs@.ints[rr as int].contents == IntegerExpression::Literal(0i64)
                    || old(self).exprs@.ints[l as int].contents == IntegerExpression::Literal(0i64)) ==> r == Some(0i64),
            pow_of_zero_int(old(self).exprs@, expr as int) ==> r == Some(0i64),
            forall|l: u32, rr: u32|
                #![trigger old(self).exprs@.ints[l as int], old(self).exprs@.ints[rr as int]]
                old(self).exprs@.ints[expr as int].contents == IntegerExpression::BinaryOperator(
                    l,
                    IntegerBinaryOperator::Divide,
                    rr,
                ) && old(self).exprs@.ints[l as int].contents is Literal && old(self).exprs@.ints[rr as int].contents == IntegerExpression::Literal(0i64) ==> r
                    is None && final(lints)@ == old(lints)@.push(
                    ConstantOverflow { span: old(self).exprs@.ints[expr as int].span },
                ),
            crate::fold_spec::int_rewrites_hold(
                old(self).exprs@,
                final(self).exprs@,
                resolver,
                expr as int,
                r,
                old(lints)@,
                final(lints)@,
                true,
            ),
    {
        fold_int_expr(&mut self.exprs, lints, resolver, expr, true)
    }

    /// Computes the same value as `constant_fold_int_expr` without touching
    /// the expression arenas; the lints raised match the evaluation model
    /// exactly.
    pub fn constant_eval_int_expr<R: ConstResolver>(
        &mut self,
        expr: IntExprId,
        resolver: &R,
        lints: &mut Vec<ConstantOverflow>,
    ) -> (r: Option<i64>)
        requires
            exprs_wf(old(self).exprs@),
            expr < old(self).exprs@.ints.len(),
        ensures
            final(self).exprs@ == old(self).exprs@,
            final(self).statements == old(self).statements,
            final(self).derivatives == old(self).derivatives,
            final(self).branches == old(self).branches,
            r == eval_int(old(self).exprs@, resolver, expr as int).val,
            final(lints)@ == old(lints)@ + eval_int(old(self).exprs@, resolver, expr as int).lints,
    {
        fold_int_expr(&mut self.exprs, lints, resolver, expr, false)
    }

    /// Tries to fold as many constants in the real expression as possible.
    /// Real values are binary64 bit patterns; a fully evaluated expression
    /// is rewritten to the literal of its value. Only operations with
    /// exact bit-level semantics are evaluated: arithmetic, comparison,
    /// absolute value, floor and ceiling. A transcendental call stays
    /// symbolic, its result machine-dependent, and folds only through the
    /// algebraic short-circuits of the power operator.
    pub fn constant_fold_real_expr<R: ConstResolver>(
        &mut self,
        expr: RealExprId,
        resolver: &R,
        lints: &mut Vec<ConstantOverflow>,
    ) -> (r: Option<u64>)
        requires
            exprs_wf(old(self).exprs@),
            expr < old(self).exprs@.reals.len(),
        ensures
            exprs_wf(final(self).exprs@),
            crate::fold_spec::shape_eq(old(self).exprs@, final(self).exprs@),
            r == eval_real(old(self).exprs@, resolver, expr as int).val,
            forall|i: int|
                0 <= i < old(self).exprs@.ints.len() ==> (#[trigger] eval_int(
                    final(self).exprs@,
                    resolver,
                    i,
                )).val == eval_int(old(self).exprs@, resolver, i).val,
            forall|i: int|
                0 <= i < old(self).exprs@.reals.len() ==> (#[trigger] eval_real(
                    final(self).exprs@,
                    resolver,
                    i,
                )).val == eval_real(old(self).exprs@, resolver, i).val,
            forall|i: int|
                0 <= i < old(self).exprs@.strs.len() ==> (#[trigger] eval_str(
                    final(self).exprs@,
                    resolver,
                    i,
                )).val == eval_str(old(self).exprs@, resolver, i).val,
            final(self).statements == old(self).statements,
            final(self).derivatives == old(self).derivatives,
            final(self).branches == old(self).branches,
            old(lints)@.is_prefix_of(final(lints)@),
            r is Some ==> final(self).exprs@.reals[expr as int].contents
                == RealExpression::Literal(r->0),
            forall|l: u32, rr: u32, z: u64|
                #![trigger old(self).exprs@.reals[l as int], old(self).exprs@.reals[rr as int], crate::realbits::is_zero_bits(z)]
                old(self).exprs@.reals[expr as int].contents == RealExpression::BinaryOperator(
                    l,
                    RealBinaryOperator::Sum,
                    rr,
                ) && old(self).exprs@.reals[rr as int].contents == RealExpression::Literal(z)
                    && crate::realbits::is_zero_bits(z) && eval_real(
                    old(self).exprs@,
                    resolver,
                    l as int,
                ).val is None ==> r is None && final(self).exprs@.reals[expr as int].contents
                    == final(self).exprs@.reals[l as int].contents,
            forall|l: u32, rr: u32, z: u64|
                #![trigger old(self).exprs@.reals[l as int], old(self).exprs@.reals[rr as int], crate::realbits::is_zero_bits(z)]
                old(self).exprs@.reals[expr as int].contents == RealExpression::BinaryOperator(
                    l,
                    RealBinaryOperator::Multiply,
                    rr,
                ) && old(self).exprs@.reals[rr as int].contents == RealExpression::Literal(z)
                    && crate::realbits::is_zero_bits(z) && eval_real(
                    old(self).exprs@,
                    resolver,
                    l as int,
                ).val is None ==> r == Some(crate::realbits::ZERO_BITS),
            pow_of_zero_real(old(self).exprs@, expr as int) ==> r == Some(
                crate::realbits::ZERO_BITS,
            ),
            crate::fold_spec::real_rewrites_hold(
                old(self).exprs@,
                final(self).exprs@,
                resolver,
                expr as int,
                r,
                true,
            ),
    {
        fold_real_expr(&mut self.exprs, lints, resolver, expr, true)
    }

    /// Computes the same value as `constant_fold_real_expr` without
    /// touching the expression arenas.
    pub fn constant_eval_real_expr<R: ConstResolver>(
        &mut self,
        expr: RealExprId,
        resolver: &R,
        lints: &mut Vec<ConstantOverflow>,
    ) -> (r: Option<u64>)
        requires
            exprs_wf(old(self).exprs@),
            expr < old(self).exprs@.reals.len(),
        ensures
            final(self).exprs@ == old(self).exprs@,
            final(self).statements == old(self).statements,
            final(self).derivatives == old(self).derivatives,
            final(self).branches == old(self).branches,
            r == eval_real(old(self).exprs@, resolver, expr as int).val,
            final(lints)@ == old(lints)@ + eval_real(
                old(self).exprs@,
                resolver,
                expr as int,
            ).lints,
    {
        fold_real_expr(&mut self.exprs, lints, resolver, expr, false)
    }

    /// Tries to fold as many constants in the string expression as
    /// possible.
    pub fn constant_fold_str_expr<R: ConstResolver>(
        &mut self,
        expr: StrExprId,
        resolver: &R,
        lints: &mut Vec<ConstantOverflow>,
    ) -> (r: Option<String>)
        requires
            exprs_wf(old(self).exprs@),
            expr < old(self).exprs@.strs.len(),
        ensures
            exprs_wf(final(self).exprs@),
            crate::fold_spec::shape_eq(old(self).exprs@, final(self).exprs@),
            match (r, eval_str(old(self).exprs@, resolver, expr as int).val) {
                (Some(s), Some(v)) => s@ == v,
                (None, None) => true,
                _ => false,
            },
            forall|i: int|
                0 <= i < old(self).exprs@.ints.len() ==> (#[trigger] eval_int(
                    final(self).exprs@,
                    resolver,
                    i,
                )).val == eval_int(old(self).exprs@, resolver, i).val,
            forall|i: int|
                0 <= i < old(self).exprs@.reals.len() ==> (#[trigger] eval_real(
                    final(self).exprs@,
                    resolver,
                    i,
                )).val == eval_real(old(self).exprs@, resolver, i).val,
            forall|i: int|
                0 <= i < old(self).exprs@.strs.len() ==> (#[trigger] eval_str(
                    final(self).exprs@,
                    resolver,
                    i,
                )).val == eval_str(old(self).exprs@, resolver, i).val,
            final(self).statements == old(self).statements,
            final(self).derivatives == old(self).derivatives,
            final(self).branches == old(self).branches,
            old(lints)@.is_prefix_of(final(lints)@),
            match r {
                Some(s) => final(self).exprs@.strs[expr as int].contents
                    == StringExpression::Literal(s),
                None => true,
            },
            match old(self).exprs@.strs[expr as int].contents {
                StringExpression::Condition(c0, t, f) => match eval_int(
                    old(self).exprs@,
                    resolver,
                    c0 as int,
                ).val {
                    Some(cv) => {
                        let chosen = if cv != 0 {
                            t
                        } else {
                            f
                        };
                        r is None ==> final(self).exprs@.strs[expr as int].contents
                            == final(self).exprs@.strs[chosen as int].contents
                    },
                    None => r is None,
                },
                _ => true,
            },
    {
        fold_str_expr(&mut self.exprs, lints, resolver, expr, true)
    }

    /// Computes the same value as `constant_fold_str_expr` without
    /// touching the expression arenas.
    pub fn constant_eval_str_expr<R: ConstResolver>(
        &mut self,
        expr: StrExprId,
        resolver: &R,
        lints: &mut Vec<ConstantOverflow>,
    ) -> (r: Option<String>)
        requires
            exprs_wf(old(self).exprs@),
            expr < old(self).exprs@.strs.len(),
        ensures
            final(self).exprs@ == old(self).exprs@,
            final(self).statements == old(self).statements,
            final(self).derivatives == old(self).derivatives,
            final(self).branches == old(self).branches,
            match (r, eval_str(old(self).exprs@, resolver, expr as int).val) {
                (Some(s), Some(v)) => s@ == v,
                (None, None) => true,
                _ => false,
            },
            final(lints)@ == old(lints)@ + eval_str(old(self).exprs@, resolver, expr as int).lints,
    {
        fold_str_expr(&mut self.exprs, lints, resolver, expr, false)
    }

    /// Folding is idempotent: a second run of the folder over the rewritten
    /// expression, with the same resolver, returns the same outcome as the
    /// first run.
    pub fn constant_fold_int_expr_twice<R: ConstResolver>(
        &mut self,
        expr: IntExprId,
        resolver: &R,
        lints: &mut Vec<ConstantOverflow>,
    ) -> (r: (Option<i64>, Option<i64>))
        requires
            exprs_wf(old(self).exprs@),
            expr < old(self).exprs@.ints.len(),
        ensures
            r.1 == r.0,
    {
        let first = self.constant_fold_int_expr(expr, resolver, lints);
        let second = self.constant_fold_int_expr(expr, resolver, lints);
        (first, second)
    }

    /// Folding is idempotent for real expressions as well.
    pub fn constant_fold_real_expr_twice<R: ConstResolver>(
        &mut self,
        expr: RealExprId,
        resolver: &R,
        lints: &mut Vec<ConstantOverflow>,
    ) -> (r: (Option<u64>, Option<u64>))
        requires
            exprs_wf(old(self).exprs@),
            expr < old(self).exprs@.reals.len(),
        ensures
            r.1 == r.0,
    {
        let first = self.constant_fold_real_expr(expr, resolver, lints);
        let second = self.constant_fold_real_expr(expr, resolver, lints);
        (first, second)
    }

    /// Folding is idempotent for string expressions as well.
    pub fn constant_fold_str_expr_twice<R: ConstResolver>(
        &mut self,
        expr: StrExprId,
        resolver: &R,
        lints: &mut Vec<ConstantOverflow>,
    ) -> (r: (Option<String>, Option<String>))
        requires
            exprs_wf(old(self).exprs@),
            expr < old(self).exprs@.strs.len(),
        ensures
            match (r.0, r.1) {
                (Some(a), Some(b)) => a@ == b@,
                (None, None) => true,
                _ => false,
            },
    {
        let first = self.constant_fold_str_expr(expr, resolver, lints);
        let second = self.constant_fold_str_expr(expr, resolver, lints);
        (first, second)
    }
}

} // verus!
