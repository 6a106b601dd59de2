//! Scalars for the matrix engine: IEEE-754 binary64 numbers carried as their
//! 64-bit patterns.
//!
//! The engine never needs to look inside a number except to take absolute
//! values (a sign-bit mask) and to ask the ordering questions that pivoting
//! poses.  Arithmetic on the patterns is performed by `rustc_apfloat`, a
//! software implementation of IEEE-754 whose results are a function of the
//! operand bits alone; each operation's result is named by an uninterpreted
//! spec function, and the few algebraic facts the engine's contracts need
//! (behaviour of zeros and of one, commutativity of addition away from NaN)
//! are stated where `rustc_apfloat`'s source plainly shows them.

use vstd::prelude::*;
use rustc_apfloat::Float;

verus! {

/// Bit pattern of +0.0.
pub const POS_ZERO: u64 = 0x0000_0000_0000_0000;
/// Bit pattern of -0.0.
pub const NEG_ZERO: u64 = 0x8000_0000_0000_0000;
/// Bit pattern of 1.0.
pub const ONE_BITS: u64 = 0x3ff0_0000_0000_0000;
/// Bit pattern of -1.0.
pub const NEG_ONE_BITS: u64 = 0xbff0_0000_0000_0000;
/// Mask that clears the sign bit.
pub const MAG_MASK: u64 = 0x7fff_ffff_ffff_ffff;
/// Mask of the exponent field.
pub const EXP_MASK: u64 = 0x7ff0_0000_0000_0000;
/// Mask of the significand field.
pub const FRAC_MASK: u64 = 0x000f_ffff_ffff_ffff;

/// The pattern's sign bit is set.
pub open spec fn sign_bit(x: u64) -> bool {
    x & NEG_ZERO == NEG_ZERO
}

/// The pattern encodes a NaN: exponent field all ones, significand non-zero.
pub open spec fn is_nan_bits(x: u64) -> bool {
    x & EXP_MASK == EXP_MASK && x & FRAC_MASK != 0
}

/// The pattern encodes a finite number (neither an infinity nor a NaN).
pub open spec fn is_finite_bits(x: u64) -> bool {
    x & EXP_MASK != EXP_MASK
}

/// Entries for which multiplication by an identity matrix is exact: finite
/// (an infinity times a zero is a NaN) and not -0.0 (which the running sum
/// of a dot product washes to +0.0).
pub open spec fn regular_bits(x: u64) -> bool {
    is_finite_bits(x) && x != NEG_ZERO
}

/// Absolute value of the encoded number: the sign bit cleared.
pub open spec fn spec_abs_bits(x: u64) -> u64 {
    x & MAG_MASK
}

/// The sum of the two encoded numbers, rounded to nearest, ties to even.
pub uninterp spec fn f64_add(a: u64, b: u64) -> u64;

/// The difference of the two encoded numbers, rounded to nearest, ties to even.
pub uninterp spec fn f64_sub(a: u64, b: u64) -> u64;

/// The product of the two encoded numbers, rounded to nearest, ties to even.
pub uninterp spec fn f64_mul(a: u64, b: u64) -> u64;

/// The quotient of the two encoded numbers, rounded to nearest, ties to even.
pub uninterp spec fn f64_div(a: u64, b: u64) -> u64;

/// The IEEE comparison `a > b` (false whenever either operand is a NaN).
pub uninterp spec fn f64_gt(a: u64, b: u64) -> bool;

/// Whether the encoded number is a zero (of either sign).
pub uninterp spec fn f64_is_zero(a: u64) -> bool;

/// The handful of bit-level facts about the special patterns that the
/// engine's proofs use.
pub proof fn lemma_special_bits()
    ensures
        !is_nan_bits(POS_ZERO),
        !is_nan_bits(NEG_ZERO),
        !is_nan_bits(ONE_BITS),
        is_finite_bits(POS_ZERO),
        is_finite_bits(ONE_BITS),
        !sign_bit(POS_ZERO),
        sign_bit(NEG_ZERO),
{
    assert(0x0u64 & 0x7ff0_0000_0000_0000u64 != 0x7ff0_0000_0000_0000u64) by (bit_vector);
    assert(0x8000_0000_0000_0000u64 & 0x7ff0_0000_0000_0000u64 != 0x7ff0_0000_0000_0000u64)
        by (bit_vector);
    assert(0x3ff0_0000_0000_0000u64 & 0x7ff0_0000_0000_0000u64 != 0x7ff0_0000_0000_0000u64)
        by (bit_vector);
    assert(0x0u64 & 0x8000_0000_0000_0000u64 != 0x8000_0000_0000_0000u64) by (bit_vector);
    assert(0x8000_0000_0000_0000u64 & 0x8000_0000_0000_0000u64 == 0x8000_0000_0000_0000u64)
        by (bit_vector);
}

/// Absolute value on bit patterns, which is exactly clearing the sign bit.
pub(crate) fn abs_bits(x: u64) -> (r: u64)
    ensures
        r == spec_abs_bits(x),
        !sign_bit(r),
{
    assert(x & MAG_MASK & NEG_ZERO == 0) by (bit_vector);
    x & MAG_MASK
}

/// Relies on `rustc_apfloat::ieee::Double`'s `Add`: the correctly rounded
/// IEEE-754 binary64 sum of the operands, a function of their bits alone.
/// Its source further shows that the sum is symmetric in its operands when
/// neither is a NaN, and how zeros combine: +0.0 plus a zero is +0.0, a zero
/// added to or by a non-zero non-NaN leaves it unchanged.
#[verifier::external_body]
pub(crate) fn add_bits(a: u64, b: u64) -> (r: u64)
    ensures
        r == f64_add(a, b),
        !is_nan_bits(a) && !is_nan_bits(b) ==> r == f64_add(b, a),
        a == POS_ZERO && (b == POS_ZERO || b == NEG_ZERO) ==> r == POS_ZERO,
        a == POS_ZERO && b != POS_ZERO && b != NEG_ZERO && !is_nan_bits(b) ==> r == b,
        (b == POS_ZERO || b == NEG_ZERO) && a != POS_ZERO && a != NEG_ZERO && !is_nan_bits(a)
            ==> r == a,
{
    let x = rustc_apfloat::ieee::Double::from_bits(a as u128);
    let y = rustc_apfloat::ieee::Double::from_bits(b as u128);
    (x + y).value.to_bits() as u64
}

/// Relies on `rustc_apfloat::ieee::Double`'s `Sub`: the correctly rounded
/// IEEE-754 binary64 difference, a function of the operand bits alone.
#[verifier::external_body]
pub(crate) fn sub_bits(a: u64, b: u64) -> (r: u64)
    ensures
        r == f64_sub(a, b),
{
    let x = rustc_apfloat::ieee::Double::from_bits(a as u128);
    let y = rustc_apfloat::ieee::Double::from_bits(b as u128);
    (x - y).value.to_bits() as u64
}

/// Relies on `rustc_apfloat::ieee::Double`'s `Mul`: the correctly rounded
/// IEEE-754 binary64 product, a function of the operand bits alone.  Its
/// source further shows the exact cases the engine's contracts use: a
/// non-NaN times 1.0 is itself, and a finite number times +0.0 is the zero
/// carrying the finite operand's sign.
#[verifier::external_body]
pub(crate) fn mul_bits(a: u64, b: u64) -> (r: u64)
    ensures
        r == f64_mul(a, b),
        b == ONE_BITS && !is_nan_bits(a) ==> r == a,
        a == ONE_BITS && !is_nan_bits(b) ==> r == b,
        b == POS_ZERO && is_finite_bits(a) ==> r == (if sign_bit(a) {
            NEG_ZERO
        } else {
            POS_ZERO
        }),
        a == POS_ZERO && is_finite_bits(b) ==> r == (if sign_bit(b) {
            NEG_ZERO
        } else {
            POS_ZERO
        }),
{
    let x = rustc_apfloat::ieee::Double::from_bits(a as u128);
    let y = rustc_apfloat::ieee::Double::from_bits(b as u128);
    (x * y).value.to_bits() as u64
}

/// Relies on `rustc_apfloat::ieee::Double`'s `Div`: the correctly rounded
/// IEEE-754 binary64 quotient, a function of the operand bits alone (a zero
/// divisor yields an infinity or NaN, never a failure).
#[verifier::external_body]
pub(crate) fn div_bits(a: u64, b: u64) -> (r: u64)
    ensures
        r == f64_div(a, b),
{
    let x = rustc_apfloat::ieee::Double::from_bits(a as u128);
    let y = rustc_apfloat::ieee::Double::from_bits(b as u128);
    (x / y).value.to_bits() as u64
}

/// Relies on `rustc_apfloat::ieee::Double`'s `PartialOrd`: the IEEE `>`
/// comparison of the encoded numbers, false when either is a NaN.
#[verifier::external_body]
pub(crate) fn gt_bits(a: u64, b: u64) -> (r: bool)
    ensures
        r == f64_gt(a, b),
{
    let x = rustc_apfloat::ieee::Double::from_bits(a as u128);
    let y = rustc_apfloat::ieee::Double::from_bits(b as u128);
    x > y
}

/// Relies on `rustc_apfloat::Float::is_zero`: true exactly when the pattern
/// encodes +0.0 or -0.0.
#[verifier::external_body]
pub(crate) fn is_zero_bits(a: u64) -> (r: bool)
    ensures
        r == f64_is_zero(a),
        a == POS_ZERO || a == NEG_ZERO ==> r,
{
    rustc_apfloat::ieee::Double::from_bits(a as u128).is_zero()
}

} // verus!
