use vacore::const_fold::{NoConstResolution, PropagatedConstants};
use vacore::fold_spec::ConstantOverflow;
use vacore::mir::{
    ExprArenas, IntegerBinaryOperator, IntegerExpression, Mir, RealBinaryOperator, RealExpression,
};
use vacore::mir::{BuiltInFunctionCall1p, ComparisonOperator, StringExpression};
use vacore::span::Span;

fn empty_mir() -> Mir {
    Mir {
        exprs: ExprArenas::new(),
        statements: Vec::new(),
        derivatives: Vec::new(),
        branches: Vec::new(),
    }
}

fn sp(n: u32) -> Span {
    Span::new(n, n + 1)
}

#[test]
fn real_product_of_known_sum_folds_to_a_literal() {
    // 2.0 * (3.0 + 4.0)
    let mut mir = empty_mir();
    let two = mir.exprs.push_real(RealExpression::Literal(2.0f64.to_bits()), sp(0));
    let three = mir.exprs.push_real(RealExpression::Literal(3.0f64.to_bits()), sp(1));
    let four = mir.exprs.push_real(RealExpression::Literal(4.0f64.to_bits()), sp(2));
    let sum = mir.exprs.push_real(
        RealExpression::BinaryOperator(three, RealBinaryOperator::Sum, four),
        sp(3),
    );
    let product = mir.exprs.push_real(
        RealExpression::BinaryOperator(two, RealBinaryOperator::Multiply, sum),
        sp(4),
    );
    let mut lints: Vec<ConstantOverflow> = Vec::new();
    let r = mir.constant_fold_real_expr(product, &NoConstResolution, &mut lints);
    assert_eq!(r, Some(14.0f64.to_bits()));
    assert_eq!(
        mir.exprs.reals[product as usize].contents,
        RealExpression::Literal(14.0f64.to_bits())
    );
    assert!(lints.is_empty());
}

#[test]
fn unknown_real_times_zero_folds_to_zero() {
    // foo * 0.0 where foo stays unresolved
    let mut mir = empty_mir();
    let foo = mir.exprs.push_real(RealExpression::VariableReference(7), sp(0));
    let zero = mir.exprs.push_real(RealExpression::Literal(0.0f64.to_bits()), sp(1));
    let product = mir.exprs.push_real(
        RealExpression::BinaryOperator(foo, RealBinaryOperator::Multiply, zero),
        sp(2),
    );
    let mut lints: Vec<ConstantOverflow> = Vec::new();
    let r = mir.constant_fold_real_expr(product, &NoConstResolution, &mut lints);
    assert_eq!(r, Some(0.0f64.to_bits()));
    assert_eq!(
        mir.exprs.reals[product as usize].contents,
        RealExpression::Literal(0.0f64.to_bits())
    );
}

#[test]
fn known_condition_rewrites_to_the_chosen_unknown_branch() {
    // cond ? foo : 1 with cond = 1: the known condition selects the
    // unresolved branch, so the whole expression is rewritten to it
    let mut mir = empty_mir();
    let cond = mir.exprs.push_int(IntegerExpression::Literal(1), sp(0));
    let one = mir.exprs.push_int(IntegerExpression::Literal(1), sp(1));
    let foo = mir.exprs.push_int(IntegerExpression::VariableReference(3), sp(2));
    let sel = mir.exprs.push_int(IntegerExpression::Condition(cond, foo, one), sp(3));
    let mut lints: Vec<ConstantOverflow> = Vec::new();
    let r = mir.constant_fold_int_expr(sel, &NoConstResolution, &mut lints);
    assert_eq!(r, None);
    assert_eq!(
        mir.exprs.ints[sel as usize].contents,
        IntegerExpression::VariableReference(3)
    );
}

#[test]
fn integer_division_by_zero_emits_exactly_one_lint() {
    // 5 / 0
    let mut mir = empty_mir();
    let five = mir.exprs.push_int(IntegerExpression::Literal(5), sp(0));
    let zero = mir.exprs.push_int(IntegerExpression::Literal(0), sp(1));
    let div = mir.exprs.push_int(
        IntegerExpression::BinaryOperator(five, IntegerBinaryOperator::Divide, zero),
        sp(9),
    );
    let mut lints: Vec<ConstantOverflow> = Vec::new();
    let r = mir.constant_fold_int_expr(div, &NoConstResolution, &mut lints);
    assert_eq!(r, None);
    assert_eq!(lints.len(), 1);
    assert_eq!(lints[0].span, sp(9));
}

#[test]
fn adding_a_literal_zero_rewrites_to_the_other_operand() {
    let mut mir = empty_mir();
    let foo = mir.exprs.push_int(IntegerExpression::VariableReference(11), sp(0));
    let zero = mir.exprs.push_int(IntegerExpression::Literal(0), sp(1));
    let sum = mir.exprs.push_int(
        IntegerExpression::BinaryOperator(foo, IntegerBinaryOperator::Sum, zero),
        sp(2),
    );
    let mut lints: Vec<ConstantOverflow> = Vec::new();
    let r = mir.constant_fold_int_expr(sum, &NoConstResolution, &mut lints);
    assert_eq!(r, None);
    assert_eq!(
        mir.exprs.ints[sum as usize].contents,
        IntegerExpression::VariableReference(11)
    );
}

#[test]
fn multiplying_by_a_literal_zero_folds_regardless_of_the_other_side() {
    let mut mir = empty_mir();
    let foo = mir.exprs.push_int(IntegerExpression::VariableReference(4), sp(0));
    let zero = mir.exprs.push_int(IntegerExpression::Literal(0), sp(1));
    let prod = mir.exprs.push_int(
        IntegerExpression::BinaryOperator(foo, IntegerBinaryOperator::Multiply, zero),
        sp(2),
    );
    let mut lints: Vec<ConstantOverflow> = Vec::new();
    let r = mir.constant_fold_int_expr(prod, &NoConstResolution, &mut lints);
    assert_eq!(r, Some(0));
    assert_eq!(
        mir.exprs.ints[prod as usize].contents,
        IntegerExpression::Literal(0)
    );
}

#[test]
fn zero_raised_to_an_unknown_power_folds_to_zero() {
    let mut mir = empty_mir();
    let zero = mir.exprs.push_int(IntegerExpression::Literal(0), sp(0));
    let foo = mir.exprs.push_int(IntegerExpression::VariableReference(4), sp(1));
    let pow = mir.exprs.push_int(
        IntegerExpression::BinaryOperator(zero, IntegerBinaryOperator::Exponent, foo),
        sp(2),
    );
    let mut lints: Vec<ConstantOverflow> = Vec::new();
    let r = mir.constant_fold_int_expr(pow, &NoConstResolution, &mut lints);
    assert_eq!(r, Some(0));
}

#[test]
fn a_known_power_of_zero_exponent_follows_the_folder_convention() {
    // x ^ 0 folds to 0, the folder's historic convention
    let mut mir = empty_mir();
    let five = mir.exprs.push_int(IntegerExpression::Literal(5), sp(0));
    let zero = mir.exprs.push_int(IntegerExpression::Literal(0), sp(1));
    let pow = mir.exprs.push_int(
        IntegerExpression::BinaryOperator(five, IntegerBinaryOperator::Exponent, zero),
        sp(2),
    );
    let mut lints: Vec<ConstantOverflow> = Vec::new();
    let r = mir.constant_fold_int_expr(pow, &NoConstResolution, &mut lints);
    assert_eq!(r, Some(0));
}

#[test]
fn refolding_returns_the_same_outcome() {
    let mut mir = empty_mir();
    let foo = mir.exprs.push_int(IntegerExpression::VariableReference(2), sp(0));
    let zero = mir.exprs.push_int(IntegerExpression::Literal(0), sp(1));
    let sum = mir.exprs.push_int(
        IntegerExpression::BinaryOperator(foo, IntegerBinaryOperator::Sum, zero),
        sp(2),
    );
    let mut lints: Vec<ConstantOverflow> = Vec::new();
    let (first, second) = mir.constant_fold_int_expr_twice(sum, &NoConstResolution, &mut lints);
    assert_eq!(first, second);

    let mut mir2 = empty_mir();
    let a = mir2.exprs.push_int(IntegerExpression::Literal(20), sp(0));
    let b = mir2.exprs.push_int(IntegerExpression::Literal(22), sp(1));
    let s2 = mir2.exprs.push_int(
        IntegerExpression::BinaryOperator(a, IntegerBinaryOperator::Sum, b),
        sp(2),
    );
    let (f2, s2r) = mir2.constant_fold_int_expr_twice(s2, &NoConstResolution, &mut lints);
    assert_eq!(f2, Some(42));
    assert_eq!(s2r, Some(42));
}

#[test]
fn resolver_answers_are_used_for_variables_and_parameters() {
    let mut mir = empty_mir();
    let v = mir.exprs.push_int(IntegerExpression::VariableReference(9), sp(0));
    let p = mir.exprs.push_int(IntegerExpression::ParameterReference(5), sp(1));
    let sum = mir.exprs.push_int(
        IntegerExpression::BinaryOperator(v, IntegerBinaryOperator::Sum, p),
        sp(2),
    );
    let mut resolver = PropagatedConstants::new();
    resolver.int_vars.push((9, 30));
    resolver.int_params.push((5, 12));
    let mut lints: Vec<ConstantOverflow> = Vec::new();
    let r = mir.constant_fold_int_expr(sum, &resolver, &mut lints);
    assert_eq!(r, Some(42));
}

#[test]
fn evaluation_leaves_the_expression_untouched() {
    let mut mir = empty_mir();
    let a = mir.exprs.push_int(IntegerExpression::Literal(6), sp(0));
    let b = mir.exprs.push_int(IntegerExpression::Literal(7), sp(1));
    let prod = mir.exprs.push_int(
        IntegerExpression::BinaryOperator(a, IntegerBinaryOperator::Multiply, b),
        sp(2),
    );
    let mut lints: Vec<ConstantOverflow> = Vec::new();
    let r = mir.constant_eval_int_expr(prod, &NoConstResolution, &mut lints);
    assert_eq!(r, Some(42));
    assert!(matches!(
        mir.exprs.ints[prod as usize].contents,
        IntegerExpression::BinaryOperator(_, IntegerBinaryOperator::Multiply, _)
    ));
}

#[test]
fn integer_arithmetic_truncates_toward_zero() {
    let mut mir = empty_mir();
    let a = mir.exprs.push_int(IntegerExpression::Literal(-7), sp(0));
    let b = mir.exprs.push_int(IntegerExpression::Literal(2), sp(1));
    let div = mir.exprs.push_int(
        IntegerExpression::BinaryOperator(a, IntegerBinaryOperator::Divide, b),
        sp(2),
    );
    let rem = mir.exprs.push_int(
        IntegerExpression::BinaryOperator(a, IntegerBinaryOperator::Modulus, b),
        sp(3),
    );
    let mut lints: Vec<ConstantOverflow> = Vec::new();
    assert_eq!(
        mir.constant_eval_int_expr(div, &NoConstResolution, &mut lints),
        Some(-7i64 / 2)
    );
    assert_eq!(
        mir.constant_eval_int_expr(rem, &NoConstResolution, &mut lints),
        Some(-7i64 % 2)
    );
}

#[test]
fn integer_powers_shifts_and_comparisons_evaluate() {
    let mut mir = empty_mir();
    let two = mir.exprs.push_int(IntegerExpression::Literal(2), sp(0));
    let ten = mir.exprs.push_int(IntegerExpression::Literal(10), sp(1));
    let pow = mir.exprs.push_int(
        IntegerExpression::BinaryOperator(two, IntegerBinaryOperator::Exponent, ten),
        sp(2),
    );
    let shl = mir.exprs.push_int(
        IntegerExpression::BinaryOperator(two, IntegerBinaryOperator::ShiftLeft, ten),
        sp(3),
    );
    let cmp = mir.exprs.push_int(
        IntegerExpression::IntegerComparison(
            two,
            ComparisonOperator::LessThan,
            ten,
        ),
        sp(4),
    );
    let mut lints: Vec<ConstantOverflow> = Vec::new();
    assert_eq!(
        mir.constant_eval_int_expr(pow, &NoConstResolution, &mut lints),
        Some(1024)
    );
    assert_eq!(
        mir.constant_eval_int_expr(shl, &NoConstResolution, &mut lints),
        Some(2i64 << 10)
    );
    assert_eq!(
        mir.constant_eval_int_expr(cmp, &NoConstResolution, &mut lints),
        Some(1)
    );
}

#[test]
fn real_comparisons_use_the_approximate_margin() {
    let mut mir = empty_mir();
    let a = mir.exprs.push_real(RealExpression::Literal(0.1f64.to_bits()), sp(0));
    let b = mir.exprs.push_real(RealExpression::Literal(0.2f64.to_bits()), sp(1));
    let sum = mir.exprs.push_real(
        RealExpression::BinaryOperator(a, RealBinaryOperator::Sum, b),
        sp(2),
    );
    let c = mir.exprs.push_real(RealExpression::Literal(0.3f64.to_bits()), sp(3));
    let eq = mir.exprs.push_int(
        IntegerExpression::RealComparison(
            sum,
            ComparisonOperator::LogicEqual,
            c,
        ),
        sp(4),
    );
    let mut lints: Vec<ConstantOverflow> = Vec::new();
    // 0.1 + 0.2 is not bitwise 0.3, but it is within the default margin
    let r = mir.constant_eval_int_expr(eq, &NoConstResolution, &mut lints);
    assert_eq!(r, Some(1));
}

#[test]
fn string_equality_folds_on_known_strings() {
    let mut mir = empty_mir();
    let a = mir
        .exprs
        .push_str(StringExpression::Literal(String::from("volts")), sp(0));
    let b = mir
        .exprs
        .push_str(StringExpression::Literal(String::from("volts")), sp(1));
    let eq = mir.exprs.push_int(IntegerExpression::StringEq(a, b), sp(2));
    let ne = mir.exprs.push_int(IntegerExpression::StringNEq(a, b), sp(3));
    let mut lints: Vec<ConstantOverflow> = Vec::new();
    assert_eq!(
        mir.constant_eval_int_expr(eq, &NoConstResolution, &mut lints),
        Some(1)
    );
    assert_eq!(
        mir.constant_eval_int_expr(ne, &NoConstResolution, &mut lints),
        Some(0)
    );
}

#[test]
fn real_builtin_abs_floor_and_ceil_fold() {
    let mut mir = empty_mir();
    let x = mir.exprs.push_real(RealExpression::Literal((-2.5f64).to_bits()), sp(0));
    let abs = mir.exprs.push_real(
        RealExpression::BuiltInFunctionCall1p(BuiltInFunctionCall1p::Abs, x),
        sp(1),
    );
    let floor = mir.exprs.push_real(
        RealExpression::BuiltInFunctionCall1p(BuiltInFunctionCall1p::Floor, x),
        sp(2),
    );
    let ceil = mir.exprs.push_real(
        RealExpression::BuiltInFunctionCall1p(BuiltInFunctionCall1p::Ceil, x),
        sp(3),
    );
    let mut lints: Vec<ConstantOverflow> = Vec::new();
    assert_eq!(
        mir.constant_eval_real_expr(abs, &NoConstResolution, &mut lints),
        Some(2.5f64.to_bits())
    );
    assert_eq!(
        mir.constant_eval_real_expr(floor, &NoConstResolution, &mut lints),
        Some((-3.0f64).to_bits())
    );
    assert_eq!(
        mir.constant_eval_real_expr(ceil, &NoConstResolution, &mut lints),
        Some((-2.0f64).to_bits())
    );
}

#[test]
fn casts_between_the_sorts_fold() {
    let mut mir = empty_mir();
    let i = mir.exprs.push_int(IntegerExpression::Literal(3), sp(0));
    let widened = mir.exprs.push_real(RealExpression::IntegerConversion(i), sp(1));
    let r = mir.exprs.push_real(RealExpression::Literal(2.6f64.to_bits()), sp(2));
    let rounded = mir.exprs.push_int(IntegerExpression::RealCast(r), sp(3));
    let mut lints: Vec<ConstantOverflow> = Vec::new();
    assert_eq!(
        mir.constant_eval_real_expr(widened, &NoConstResolution, &mut lints),
        Some(3.0f64.to_bits())
    );
    assert_eq!(
        mir.constant_eval_int_expr(rounded, &NoConstResolution, &mut lints),
        Some(3)
    );
}

#[test]
fn an_exponent_beyond_the_32_bit_range_raises_the_overflow_lint() {
    let mut mir = empty_mir();
    let two = mir.exprs.push_int(IntegerExpression::Literal(2), sp(0));
    let huge = mir.exprs.push_int(IntegerExpression::Literal(0x1_0000_0000i64), sp(1));
    let pow = mir.exprs.push_int(
        IntegerExpression::BinaryOperator(two, IntegerBinaryOperator::Exponent, huge),
        sp(5),
    );
    let mut lints: Vec<ConstantOverflow> = Vec::new();
    let r = mir.constant_fold_int_expr(pow, &NoConstResolution, &mut lints);
    assert_eq!(r, None);
    assert_eq!(lints.len(), 1);
    assert_eq!(lints[0].span, sp(5));
}

#[test]
fn a_known_string_condition_folds_to_the_chosen_literal() {
    let mut mir = empty_mir();
    let cond = mir.exprs.push_int(IntegerExpression::Literal(0), sp(0));
    let yes = mir
        .exprs
        .push_str(StringExpression::Literal(String::from("on")), sp(1));
    let no = mir
        .exprs
        .push_str(StringExpression::Literal(String::from("off")), sp(2));
    let sel = mir.exprs.push_str(StringExpression::Condition(cond, yes, no), sp(3));
    let mut lints: Vec<ConstantOverflow> = Vec::new();
    let r = mir.constant_fold_str_expr(sel, &NoConstResolution, &mut lints);
    assert_eq!(r.as_deref(), Some("off"));
    assert!(matches!(
        &mir.exprs.strs[sel as usize].contents,
        StringExpression::Literal(s) if s == "off"
    ));
}

#[test]
fn adding_a_real_zero_rewrites_to_the_unknown_operand() {
    let mut mir = empty_mir();
    let foo = mir.exprs.push_real(RealExpression::VariableReference(2), sp(0));
    let zero = mir.exprs.push_real(RealExpression::Literal(0.0f64.to_bits()), sp(1));
    let sum = mir.exprs.push_real(
        RealExpression::BinaryOperator(foo, RealBinaryOperator::Sum, zero),
        sp(2),
    );
    let mut lints: Vec<ConstantOverflow> = Vec::new();
    let r = mir.constant_fold_real_expr(sum, &NoConstResolution, &mut lints);
    assert_eq!(r, None);
    assert_eq!(
        mir.exprs.reals[sum as usize].contents,
        RealExpression::VariableReference(2)
    );
    let (first, second) = mir.constant_fold_real_expr_twice(sum, &NoConstResolution, &mut lints);
    assert_eq!(first, second);
}

#[test]
fn multiplicative_identities_rewrite_to_the_unknown_operand() {
    let mut mir = empty_mir();
    let foo = mir.exprs.push_int(IntegerExpression::VariableReference(5), sp(0));
    let one = mir.exprs.push_int(IntegerExpression::Literal(1), sp(1));
    let prod = mir.exprs.push_int(
        IntegerExpression::BinaryOperator(foo, IntegerBinaryOperator::Multiply, one),
        sp(2),
    );
    let quot = mir.exprs.push_int(
        IntegerExpression::BinaryOperator(foo, IntegerBinaryOperator::Divide, one),
        sp(3),
    );
    let pow = mir.exprs.push_int(
        IntegerExpression::BinaryOperator(foo, IntegerBinaryOperator::Exponent, one),
        sp(4),
    );
    let mut lints: Vec<ConstantOverflow> = Vec::new();
    for e in [prod, quot, pow] {
        let r = mir.constant_fold_int_expr(e, &NoConstResolution, &mut lints);
        assert_eq!(r, None);
        assert_eq!(
            mir.exprs.ints[e as usize].contents,
            IntegerExpression::VariableReference(5)
        );
    }
    assert!(lints.is_empty());
}

#[test]
fn bitwise_identities_rewrite_to_the_unknown_operand() {
    let mut mir = empty_mir();
    let foo = mir.exprs.push_int(IntegerExpression::VariableReference(6), sp(0));
    let all = mir.exprs.push_int(IntegerExpression::Literal(i64::MAX), sp(1));
    let zero = mir.exprs.push_int(IntegerExpression::Literal(0), sp(2));
    let masked = mir.exprs.push_int(
        IntegerExpression::BinaryOperator(foo, IntegerBinaryOperator::And, all),
        sp(3),
    );
    let ored = mir.exprs.push_int(
        IntegerExpression::BinaryOperator(zero, IntegerBinaryOperator::Or, foo),
        sp(4),
    );
    let logic_or = mir.exprs.push_int(
        IntegerExpression::BinaryOperator(foo, IntegerBinaryOperator::LogicOr, zero),
        sp(5),
    );
    let mut lints: Vec<ConstantOverflow> = Vec::new();
    for e in [masked, ored, logic_or] {
        let r = mir.constant_fold_int_expr(e, &NoConstResolution, &mut lints);
        assert_eq!(r, None);
        assert_eq!(
            mir.exprs.ints[e as usize].contents,
            IntegerExpression::VariableReference(6)
        );
    }
    assert!(lints.is_empty());
}

#[test]
fn real_identities_rewrite_to_the_unknown_operand() {
    let mut mir = empty_mir();
    let v = mir.exprs.push_real(RealExpression::VariableReference(9), sp(0));
    let zero = mir.exprs.push_real(RealExpression::Literal(0.0f64.to_bits()), sp(1));
    let one = mir.exprs.push_real(RealExpression::Literal(1.0f64.to_bits()), sp(2));
    let diff = mir.exprs.push_real(
        RealExpression::BinaryOperator(v, RealBinaryOperator::Subtract, zero),
        sp(3),
    );
    let prod = mir.exprs.push_real(
        RealExpression::BinaryOperator(v, RealBinaryOperator::Multiply, one),
        sp(4),
    );
    let quot = mir.exprs.push_real(
        RealExpression::BinaryOperator(v, RealBinaryOperator::Divide, one),
        sp(5),
    );
    let pow = mir.exprs.push_real(
        RealExpression::BinaryOperator(v, RealBinaryOperator::Exponent, one),
        sp(6),
    );
    let mut lints: Vec<ConstantOverflow> = Vec::new();
    for e in [diff, prod, quot, pow] {
        let r = mir.constant_fold_real_expr(e, &NoConstResolution, &mut lints);
        assert_eq!(r, None);
        assert_eq!(
            mir.exprs.reals[e as usize].contents,
            RealExpression::VariableReference(9)
        );
    }
    assert!(lints.is_empty());
}

#[test]
fn a_negative_literal_exponent_of_a_literal_base_folds_to_zero_without_a_lint() {
    let mut mir = empty_mir();
    let base = mir.exprs.push_int(IntegerExpression::Literal(7), sp(0));
    let exp = mir.exprs.push_int(IntegerExpression::Literal(-3), sp(1));
    let pow = mir.exprs.push_int(
        IntegerExpression::BinaryOperator(base, IntegerBinaryOperator::Exponent, exp),
        sp(2),
    );
    let mut lints: Vec<ConstantOverflow> = Vec::new();
    let r = mir.constant_fold_int_expr(pow, &NoConstResolution, &mut lints);
    assert_eq!(r, Some(0));
    assert!(lints.is_empty());
}
