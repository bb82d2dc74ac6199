use vstd::prelude::*;
use rustc_apfloat::Float;

verus! {

/// Real values of the expression IR are carried as the bit patterns of
/// IEEE 754 binary64 numbers, so that the verified folder can reason about
/// them as plain 64-bit words. The arithmetic itself is performed by the
/// `rustc_apfloat` soft-float library behind the trusted wrappers below.
/// A rounding operation's result is named by an uninterpreted function of
/// the operand bits, which is sound because binary64 arithmetic is a pure
/// function of its operands; the comparisons are stated exactly, over the
/// order-preserving `ordered_bits` map.
pub const SIGN_BIT: u64 = 0x8000000000000000;

/// Bit pattern of positive zero.
pub const ZERO_BITS: u64 = 0;

/// Bit pattern of 1.0.
pub const ONE_BITS: u64 = 0x3FF0000000000000;

/// Bit pattern of the machine epsilon used by the default comparison margin.
pub const EPSILON_BITS: u64 = 0x3CB0000000000000;

/// Bit pattern of -1.0.
pub const NEG_ONE_BITS: u64 = 0xBFF0000000000000;

/// Bit pattern of 2.0.
pub const TWO_BITS: u64 = 0x4000000000000000;

/// A binary64 value is zero exactly when all bits besides the sign are clear.
pub open spec fn is_zero_bits(b: u64) -> bool {
    b == ZERO_BITS || b == SIGN_BIT
}

pub open spec fn is_one_bits(b: u64) -> bool {
    b == ONE_BITS
}

/// A binary64 value is a NaN when its exponent is all ones and its
/// significand is not zero.
pub open spec fn is_nan_bits(b: u64) -> bool {
    (b >> 52) & 0x7FF == 0x7FF && b & 0xFFFFFFFFFFFFF != 0
}

pub fn bits_is_zero(b: u64) -> (r: bool)
    ensures
        r == is_zero_bits(b),
{
    b == ZERO_BITS || b == SIGN_BIT
}

pub fn bits_is_one(b: u64) -> (r: bool)
    ensures
        r == is_one_bits(b),
{
    b == ONE_BITS
}

pub fn bits_is_nan(b: u64) -> (r: bool)
    ensures
        r == is_nan_bits(b),
{
    (b >> 52) & 0x7FF == 0x7FF && b & 0xFFFFFFFFFFFFF != 0
}

pub uninterp spec fn add_bits(a: u64, b: u64) -> u64;

pub uninterp spec fn sub_bits(a: u64, b: u64) -> u64;

pub uninterp spec fn mul_bits(a: u64, b: u64) -> u64;

pub uninterp spec fn div_bits(a: u64, b: u64) -> u64;

pub uninterp spec fn rem_bits(a: u64, b: u64) -> u64;

pub uninterp spec fn neg_bits(a: u64) -> u64;

/// Binary64 numeric strict order over bit patterns: false when either
/// operand is a NaN or both are zeros, and otherwise the order of the
/// sign-folded `ordered_bits` images.
pub open spec fn lt_bits(a: u64, b: u64) -> bool {
    !is_nan_bits(a) && !is_nan_bits(b) && !(is_zero_bits(a) && is_zero_bits(b)) && ordered_bits(a)
        < ordered_bits(b)
}

/// Binary64 numeric equality over bit patterns: a NaN equals nothing, the
/// two zeros are equal, and otherwise equal values have equal bits.
pub open spec fn eq_bits(a: u64, b: u64) -> bool {
    !is_nan_bits(a) && !is_nan_bits(b) && (a == b || (is_zero_bits(a) && is_zero_bits(b)))
}

pub open spec fn le_bits(a: u64, b: u64) -> bool {
    lt_bits(a, b) || eq_bits(a, b)
}

pub uninterp spec fn floor_bits(a: u64) -> u64;

pub uninterp spec fn ceil_bits(a: u64) -> u64;

pub uninterp spec fn int_to_bits(v: i64) -> u64;

pub uninterp spec fn bits_round_to_int(a: u64) -> i64;

/// Relies on rustc_apfloat's binary64 addition, rounding to nearest even.
#[verifier::external_body]
pub(crate) fn real_add(a: u64, b: u64) -> (r: u64)
    ensures
        r == add_bits(a, b),
{
    let x = rustc_apfloat::ieee::Double::from_bits(a as u128);
    let y = rustc_apfloat::ieee::Double::from_bits(b as u128);
    (x + y).value.to_bits() as u64
}

/// Relies on rustc_apfloat's binary64 subtraction, rounding to nearest even.
#[verifier::external_body]
pub(crate) fn real_sub(a: u64, b: u64) -> (r: u64)
    ensures
        r == sub_bits(a, b),
{
    let x = rustc_apfloat::ieee::Double::from_bits(a as u128);
    let y = rustc_apfloat::ieee::Double::from_bits(b as u128);
    (x - y).value.to_bits() as u64
}

/// Relies on rustc_apfloat's binary64 multiplication, rounding to nearest even.
#[verifier::external_body]
pub(crate) fn real_mul(a: u64, b: u64) -> (r: u64)
    ensures
        r == mul_bits(a, b),
{
    let x = rustc_apfloat::ieee::Double::from_bits(a as u128);
    let y = rustc_apfloat::ieee::Double::from_bits(b as u128);
    (x * y).value.to_bits() as u64
}

/// Relies on rustc_apfloat's binary64 division, rounding to nearest even.
#[verifier::external_body]
pub(crate) fn real_div(a: u64, b: u64) -> (r: u64)
    ensures
        r == div_bits(a, b),
{
    let x = rustc_apfloat::ieee::Double::from_bits(a as u128);
    let y = rustc_apfloat::ieee::Double::from_bits(b as u128);
    (x / y).value.to_bits() as u64
}

/// Relies on rustc_apfloat's binary64 fmod, the remainder of truncating division.
#[verifier::external_body]
pub(crate) fn real_rem(a: u64, b: u64) -> (r: u64)
    ensures
        r == rem_bits(a, b),
{
    let x = rustc_apfloat::ieee::Double::from_bits(a as u128);
    let y = rustc_apfloat::ieee::Double::from_bits(b as u128);
    (x % y).value.to_bits() as u64
}

/// Relies on rustc_apfloat's binary64 negation.
#[verifier::external_body]
pub(crate) fn real_neg(a: u64) -> (r: u64)
    ensures
        r == neg_bits(a),
{
    let x = rustc_apfloat::ieee::Double::from_bits(a as u128);
    (-x).to_bits() as u64
}

/// Relies on rustc_apfloat's binary64 ordering: NaN compares less-than
/// nothing, both zeros are equal, and otherwise the numeric order is the
/// `ordered_bits` order stated by `lt_bits`.
#[verifier::external_body]
pub(crate) fn real_lt(a: u64, b: u64) -> (r: bool)
    ensures
        r == lt_bits(a, b),
{
    let x = rustc_apfloat::ieee::Double::from_bits(a as u128);
    let y = rustc_apfloat::ieee::Double::from_bits(b as u128);
    matches!(x.partial_cmp(&y), Some(core::cmp::Ordering::Less))
}

/// Relies on rustc_apfloat's binary64 ordering; NaN compares less-equal nothing.
#[verifier::external_body]
pub(crate) fn real_le(a: u64, b: u64) -> (r: bool)
    ensures
        r == le_bits(a, b),
{
    let x = rustc_apfloat::ieee::Double::from_bits(a as u128);
    let y = rustc_apfloat::ieee::Double::from_bits(b as u128);
    matches!(
        x.partial_cmp(&y),
        Some(core::cmp::Ordering::Less) | Some(core::cmp::Ordering::Equal),
    )
}

/// Relies on rustc_apfloat's binary64 equality: both zeros are equal and a
/// NaN equals nothing.
#[verifier::external_body]
pub(crate) fn real_eq(a: u64, b: u64) -> (r: bool)
    ensures
        r == eq_bits(a, b),
{
    let x = rustc_apfloat::ieee::Double::from_bits(a as u128);
    let y = rustc_apfloat::ieee::Double::from_bits(b as u128);
    matches!(x.partial_cmp(&y), Some(core::cmp::Ordering::Equal))
}

/// Relies on rustc_apfloat's round-to-integral toward negative infinity.
#[verifier::external_body]
pub(crate) fn real_floor(a: u64) -> (r: u64)
    ensures
        r == floor_bits(a),
{
    let x = rustc_apfloat::ieee::Double::from_bits(a as u128);
    x.round_to_integral(rustc_apfloat::Round::TowardNegative).value.to_bits() as u64
}

/// Relies on rustc_apfloat's round-to-integral toward positive infinity.
#[verifier::external_body]
pub(crate) fn real_ceil(a: u64) -> (r: u64)
    ensures
        r == ceil_bits(a),
{
    let x = rustc_apfloat::ieee::Double::from_bits(a as u128);
    x.round_to_integral(rustc_apfloat::Round::TowardPositive).value.to_bits() as u64
}

/// Relies on rustc_apfloat's integer-to-binary64 conversion, nearest even.
#[verifier::external_body]
pub(crate) fn real_from_int(v: i64) -> (r: u64)
    ensures
        r == int_to_bits(v),
{
    rustc_apfloat::ieee::Double::from_i128(v as i128).value.to_bits() as u64
}

/// Relies on rustc_apfloat's binary64-to-integer conversion, rounding half
/// away from zero and saturating at the 64-bit bounds.
#[verifier::external_body]
pub(crate) fn real_round_to_int(a: u64) -> (r: i64)
    ensures
        r == bits_round_to_int(a),
{
    let x = rustc_apfloat::ieee::Double::from_bits(a as u128);
    let mut exact = false;
    x.to_i128_r(64, rustc_apfloat::Round::NearestTiesToAway, &mut exact).value as i64
}

/// The sign-magnitude bit pattern reordered so that the natural `u64` order
/// agrees with the numeric order of the binary64 values.
pub open spec fn ordered_bits(b: u64) -> u64 {
    if b & SIGN_BIT != 0 {
        !b
    } else {
        b ^ SIGN_BIT
    }
}

fn exec_ordered_bits(b: u64) -> (r: u64)
    ensures
        r == ordered_bits(b),
{
    if b & SIGN_BIT != 0 {
        !b
    } else {
        b ^ SIGN_BIT
    }
}

/// How many representable binary64 values separate `a` and `b`, saturated
/// to a non-negative count.
pub open spec fn ulps_distance(a: u64, b: u64) -> int {
    let d = ordered_bits(a) as int - ordered_bits(b) as int;
    if d < 0 {
        -d
    } else {
        d
    }
}

fn exec_ulps_distance(a: u64, b: u64) -> (r: u64)
    ensures
        r == ulps_distance(a, b),
{
    let oa = exec_ordered_bits(a);
    let ob = exec_ordered_bits(b);
    if oa >= ob {
        oa - ob
    } else {
        ob - oa
    }
}

/// The default-margin approximate equality used for real comparisons: exact
/// equality, or an absolute difference within the machine epsilon, or at
/// most four representable values apart.
pub open spec fn approx_eq_bits(a: u64, b: u64) -> bool {
    ||| eq_bits(a, b)
    ||| le_bits(sub_bits(a, b) & !SIGN_BIT, EPSILON_BITS)
    ||| (!is_nan_bits(a) && !is_nan_bits(b) && ulps_distance(a, b) <= 4)
}

/// Default-margin approximate comparison of two real values.
pub fn real_approx_eq(a: u64, b: u64) -> (r: bool)
    ensures
        r == approx_eq_bits(a, b),
{
    if real_eq(a, b) {
        return true;
    }
    let diff = real_sub(a, b) & !SIGN_BIT;
    if real_le(diff, EPSILON_BITS) {
        return true;
    }
    if bits_is_nan(a) || bits_is_nan(b) {
        return false;
    }
    let ulps = exec_ulps_distance(a, b);
    ulps <= 4
}

/// The larger of two real values; if one operand is a NaN the other is
/// returned, as the host maximum does.
pub open spec fn max_bits(a: u64, b: u64) -> u64 {
    if is_nan_bits(a) {
        b
    } else if is_nan_bits(b) {
        a
    } else if lt_bits(a, b) {
        b
    } else {
        a
    }
}

pub open spec fn min_bits(a: u64, b: u64) -> u64 {
    if is_nan_bits(a) {
        b
    } else if is_nan_bits(b) {
        a
    } else if lt_bits(b, a) {
        b
    } else {
        a
    }
}

pub fn real_max(a: u64, b: u64) -> (r: u64)
    ensures
        r == max_bits(a, b),
{
    if bits_is_nan(a) {
        b
    } else if bits_is_nan(b) {
        a
    } else if real_lt(a, b) {
        b
    } else {
        a
    }
}

pub fn real_min(a: u64, b: u64) -> (r: u64)
    ensures
        r == min_bits(a, b),
{
    if bits_is_nan(a) {
        b
    } else if bits_is_nan(b) {
        a
    } else if real_lt(b, a) {
        b
    } else {
        a
    }
}

/// The absolute value of a binary64 is its bit pattern with the sign cleared.
pub open spec fn abs_bits(a: u64) -> u64 {
    a & !SIGN_BIT
}

pub fn real_abs(a: u64) -> (r: u64)
    ensures
        r == abs_bits(a),
{
    a & !SIGN_BIT
}

} // verus!
