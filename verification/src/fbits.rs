//! IEEE 754 binary32 scalars as `u32` bit patterns.
//!
//! The engine never holds a native float: every scalar is the bit pattern of
//! an IEEE 754 binary32 value. Classification (NaN, infinity, zero, sign) and
//! negation are pure bit operations defined here as spec and exec functions.
//! The four arithmetic operations, conversion from an integer and rounding to
//! an integral value are performed by `rustc_apfloat`, a deterministic
//! software implementation of IEEE 754 binary32 (round to nearest, ties to
//! even): the same operand bits give the same result bits in every process
//! and on every machine, which is what lets each operation be named by an
//! uninterpreted function.

use vstd::prelude::*;

verus! {

/// Bits of +0.0.
pub const POS_ZERO: u32 = 0x0000_0000;

/// Bits of -0.0.
pub const NEG_ZERO: u32 = 0x8000_0000;

/// Bits of 1.0.
pub const ONE_BITS: u32 = 0x3F80_0000;

/// Bits of 0.5.
pub const HALF_BITS: u32 = 0x3F00_0000;

/// The canonical quiet NaN this library produces from its own code paths.
pub const QNAN_BITS: u32 = 0x7FC0_0000;

/// The sign bit is set: the value is negative (or a NaN with sign set).
pub open spec fn sign_b(x: u32) -> bool {
    x & 0x8000_0000 != 0
}

/// The exponent field is all ones and the fraction is non-zero: a NaN.
pub open spec fn is_nan_b(x: u32) -> bool {
    x & 0x7F80_0000 == 0x7F80_0000 && x & 0x007F_FFFF != 0
}

/// The value is +infinity or -infinity.
pub open spec fn is_inf_b(x: u32) -> bool {
    x & 0x7FFF_FFFF == 0x7F80_0000
}

/// The exponent field is not all ones: neither a NaN nor an infinity.
pub open spec fn is_finite_b(x: u32) -> bool {
    x & 0x7F80_0000 != 0x7F80_0000
}

/// The value is +0.0 or -0.0.
pub open spec fn is_zero_b(x: u32) -> bool {
    x & 0x7FFF_FFFF == 0
}

/// IEEE negation: flip the sign bit.
pub open spec fn neg_b(x: u32) -> u32 {
    x ^ 0x8000_0000
}

/// IEEE absolute value: clear the sign bit.
pub open spec fn abs_b(x: u32) -> u32 {
    x & 0x7FFF_FFFF
}

pub fn sign_x(x: u32) -> (r: bool)
    ensures
        r == sign_b(x),
{
    x & 0x8000_0000 != 0
}

pub fn is_nan_x(x: u32) -> (r: bool)
    ensures
        r == is_nan_b(x),
{
    x & 0x7F80_0000 == 0x7F80_0000 && x & 0x007F_FFFF != 0
}

pub fn is_inf_x(x: u32) -> (r: bool)
    ensures
        r == is_inf_b(x),
{
    x & 0x7FFF_FFFF == 0x7F80_0000
}

pub fn is_zero_x(x: u32) -> (r: bool)
    ensures
        r == is_zero_b(x),
{
    x & 0x7FFF_FFFF == 0
}

pub fn abs_x(x: u32) -> (r: u32)
    ensures
        r == abs_b(x),
{
    x & 0x7FFF_FFFF
}

/// The bits of the binary32 sum of the values with bits `a` and `b`.
pub uninterp spec fn add_bits(a: u32, b: u32) -> u32;

/// The bits of the binary32 difference of the values with bits `a` and `b`.
pub uninterp spec fn sub_bits(a: u32, b: u32) -> u32;

/// The bits of the binary32 product of the values with bits `a` and `b`.
pub uninterp spec fn mul_bits(a: u32, b: u32) -> u32;

/// The bits of the binary32 quotient of the values with bits `a` and `b`.
pub uninterp spec fn div_bits(a: u32, b: u32) -> u32;

/// The bits of the binary32 value nearest to the integer `n`.
pub uninterp spec fn of_u64_bits(n: u64) -> u32;

/// The bits of the value with bits `x` rounded to the nearest integral value.
pub uninterp spec fn round_even_bits(x: u32) -> u32;

/// Relies on `rustc_apfloat::ieee::Single::add_r` (round to nearest, ties to
/// even). Besides naming the result: the sum of two +0.0 is +0.0, and adding
/// a zero to a value that is neither a NaN nor -0.0 returns that value
/// unchanged, as IEEE 754 prescribes for this rounding direction.
#[verifier::external_body]
pub(crate) fn fadd(a: u32, b: u32) -> (r: u32)
    ensures
        r == add_bits(a, b),
        a == POS_ZERO && b == POS_ZERO ==> r == POS_ZERO,
        (b == POS_ZERO || b == NEG_ZERO) && !is_nan_b(a) && a != NEG_ZERO ==> r == a,
{
    let x: rustc_apfloat::ieee::Single = rustc_apfloat::Float::from_bits(a as u128);
    let y: rustc_apfloat::ieee::Single = rustc_apfloat::Float::from_bits(b as u128);
    let s = rustc_apfloat::Float::add_r(x, y, rustc_apfloat::Round::NearestTiesToEven);
    rustc_apfloat::Float::to_bits(s.value) as u32
}

/// Relies on `rustc_apfloat::ieee::Single::sub_r` (round to nearest, ties to
/// even). Besides naming the result: a finite value minus itself is +0.0; the
/// difference of finite values is never a NaN; and for distinct finite
/// operands, swapping them negates the difference exactly.
#[verifier::external_body]
pub(crate) fn fsub(a: u32, b: u32) -> (r: u32)
    ensures
        r == sub_bits(a, b),
        b == a && is_finite_b(a) ==> r == POS_ZERO,
        is_finite_b(a) && is_finite_b(b) ==> !is_nan_b(r),
        is_finite_b(a) && is_finite_b(b) && a != b ==> r == neg_b(sub_bits(b, a)),
{
    let x: rustc_apfloat::ieee::Single = rustc_apfloat::Float::from_bits(a as u128);
    let y: rustc_apfloat::ieee::Single = rustc_apfloat::Float::from_bits(b as u128);
    let s = rustc_apfloat::Float::sub_r(x, y, rustc_apfloat::Round::NearestTiesToEven);
    rustc_apfloat::Float::to_bits(s.value) as u32
}

/// Relies on `rustc_apfloat::ieee::Single::mul_r` (round to nearest, ties to
/// even). Besides naming the result: negating both factors of a non-NaN
/// product leaves it unchanged; +0.0 times a finite value is a zero; and the
/// product of two +0.0 is +0.0.
#[verifier::external_body]
pub(crate) fn fmul(a: u32, b: u32) -> (r: u32)
    ensures
        r == mul_bits(a, b),
        !is_nan_b(a) && !is_nan_b(b) ==> r == mul_bits(neg_b(a), neg_b(b)),
        a == POS_ZERO && is_finite_b(b) ==> r == POS_ZERO || r == NEG_ZERO,
        a == POS_ZERO && b == POS_ZERO ==> r == POS_ZERO,
{
    let x: rustc_apfloat::ieee::Single = rustc_apfloat::Float::from_bits(a as u128);
    let y: rustc_apfloat::ieee::Single = rustc_apfloat::Float::from_bits(b as u128);
    let s = rustc_apfloat::Float::mul_r(x, y, rustc_apfloat::Round::NearestTiesToEven);
    rustc_apfloat::Float::to_bits(s.value) as u32
}

/// Relies on `rustc_apfloat::ieee::Single::div_r` (round to nearest, ties to
/// even). Besides naming the result: +0.0 divided by a positive non-zero,
/// non-NaN value is +0.0.
#[verifier::external_body]
pub(crate) fn fdiv(a: u32, b: u32) -> (r: u32)
    ensures
        r == div_bits(a, b),
        a == POS_ZERO && !is_nan_b(b) && !sign_b(b) && !is_zero_b(b) ==> r == POS_ZERO,
{
    let x: rustc_apfloat::ieee::Single = rustc_apfloat::Float::from_bits(a as u128);
    let y: rustc_apfloat::ieee::Single = rustc_apfloat::Float::from_bits(b as u128);
    let s = rustc_apfloat::Float::div_r(x, y, rustc_apfloat::Round::NearestTiesToEven);
    rustc_apfloat::Float::to_bits(s.value) as u32
}

/// Relies on `rustc_apfloat::ieee::Single::from_u128_r` (round to nearest,
/// ties to even). Besides naming the result: 0 converts to +0.0, and a
/// positive integer converts to a positive, non-zero, non-NaN value (every
/// `u64` is far below the binary32 overflow threshold).
#[verifier::external_body]
pub(crate) fn f_of_u64(n: u64) -> (r: u32)
    ensures
        r == of_u64_bits(n),
        n == 0 ==> r == POS_ZERO,
        n >= 1 ==> !sign_b(r) && !is_nan_b(r) && !is_zero_b(r),
{
    let s = <rustc_apfloat::ieee::Single as rustc_apfloat::Float>::from_u128_r(
        n as u128,
        rustc_apfloat::Round::NearestTiesToEven,
    );
    rustc_apfloat::Float::to_bits(s.value) as u32
}

/// Relies on `rustc_apfloat::ieee::Single::round_to_integral` (round to
/// nearest, ties to even).
#[verifier::external_body]
pub(crate) fn fround(x: u32) -> (r: u32)
    ensures
        r == round_even_bits(x),
{
    let v: rustc_apfloat::ieee::Single = rustc_apfloat::Float::from_bits(x as u128);
    let s = rustc_apfloat::Float::round_to_integral(v, rustc_apfloat::Round::NearestTiesToEven);
    rustc_apfloat::Float::to_bits(s.value) as u32
}

/// Bits of 1/(2*pi).
pub const INV_TWO_PI_BITS: u32 = 0x3E22_F983;

/// Bits of 2*pi.
pub const TWO_PI_BITS: u32 = 0x40C9_0FDB;

/// What holds of the cosine primitive: a NaN or infinite argument gives the
/// canonical NaN, and any other argument gives a value in [-1, 1].
pub open spec fn cos_rel(x: u32, r: u32) -> bool {
    if is_nan_b(x) || is_inf_b(x) {
        r == QNAN_BITS
    } else {
        abs_b(r) <= ONE_BITS
    }
}

/// What holds of the bounding sigmoid: a NaN argument gives the canonical
/// NaN, and any other argument gives a value in [0, 1].
pub open spec fn logistic_rel(x: u32, r: u32) -> bool {
    if is_nan_b(x) {
        r == QNAN_BITS
    } else {
        !sign_b(r) && r <= ONE_BITS
    }
}

/// The cosine this library computes, as a function of the argument bits: the
/// argument is reduced by a multiple of 2*pi, an even polynomial (whose
/// coefficients are the binary32 Taylor coefficients up to the twelfth
/// power) approximates the reduced cosine, and the outcome is clamped into
/// [-1, 1]. A NaN or infinite argument gives the canonical NaN.
pub open spec fn cos_approx(x: u32) -> u32 {
    if is_nan_b(x) || is_inf_b(x) {
        QNAN_BITS
    } else {
        let k = round_even_bits(mul_bits(x, INV_TWO_PI_BITS));
        let t = sub_bits(x, mul_bits(k, TWO_PI_BITS));
        let s = mul_bits(t, t);
        let p0 = 0x310F_76C7u32;
        let p1 = add_bits(0xB493_F27E, mul_bits(s, p0));
        let p2 = add_bits(0x37D0_0D01, mul_bits(s, p1));
        let p3 = add_bits(0xBAB6_0B61, mul_bits(s, p2));
        let p4 = add_bits(0x3D2A_AAAB, mul_bits(s, p3));
        let p5 = add_bits(0xBF00_0000, mul_bits(s, p4));
        let p6 = add_bits(ONE_BITS, mul_bits(s, p5));
        if abs_b(p6) <= ONE_BITS {
            p6
        } else {
            ONE_BITS
        }
    }
}

/// The bounding sigmoid this library computes, as a function of the argument
/// bits: an algebraic sigmoid around x / (1 + |x|), clamped into [0, 1]. A
/// NaN argument gives the canonical NaN; an infinity gives the end of the
/// range its sign points at.
pub open spec fn logistic_approx(x: u32) -> u32 {
    if is_nan_b(x) {
        QNAN_BITS
    } else if is_inf_b(x) {
        if sign_b(x) {
            POS_ZERO
        } else {
            ONE_BITS
        }
    } else {
        let t = div_bits(x, add_bits(ONE_BITS, abs_b(x)));
        let s0 = add_bits(HALF_BITS, mul_bits(HALF_BITS, t));
        if sign_b(s0) {
            POS_ZERO
        } else if s0 <= ONE_BITS {
            s0
        } else {
            ONE_BITS
        }
    }
}

/// Cosine of the value with bits `x`, by range reduction, an even polynomial
/// and a final clamp over the trusted primitives. Besides computing exactly
/// `cos_approx`, the result obeys the range law `cos_rel`.
pub fn fcos(x: u32) -> (r: u32)
    ensures
        r == cos_approx(x),
        cos_rel(x, r),
{
    proof {
        assert(0x3F80_0000u32 & 0x7FFF_FFFF == 0x3F80_0000) by (bit_vector);
    }
    if is_nan_x(x) || is_inf_x(x) {
        return QNAN_BITS;
    }
    let k = fround(fmul(x, INV_TWO_PI_BITS));
    let t = fsub(x, fmul(k, TWO_PI_BITS));
    let s = fmul(t, t);
    let mut p: u32 = 0x310F_76C7;
    p = fadd(0xB493_F27E, fmul(s, p));
    p = fadd(0x37D0_0D01, fmul(s, p));
    p = fadd(0xBAB6_0B61, fmul(s, p));
    p = fadd(0x3D2A_AAAB, fmul(s, p));
    p = fadd(0xBF00_0000, fmul(s, p));
    p = fadd(ONE_BITS, fmul(s, p));
    if abs_x(p) <= ONE_BITS {
        p
    } else {
        ONE_BITS
    }
}

/// The bounding sigmoid that squashes a value into [0, 1] (the role the
/// `LogFunction` node plays in geometric-semantic variation). Besides
/// computing exactly `logistic_approx`, the result obeys the range law
/// `logistic_rel`.
pub fn flogistic(x: u32) -> (r: u32)
    ensures
        r == logistic_approx(x),
        logistic_rel(x, r),
{
    proof {
        assert(0x3F80_0000u32 & 0x8000_0000 == 0 && 0u32 & 0x8000_0000 == 0) by (bit_vector);
    }
    if is_nan_x(x) {
        return QNAN_BITS;
    }
    if is_inf_x(x) {
        if sign_x(x) {
            return POS_ZERO;
        } else {
            return ONE_BITS;
        }
    }
    let t = fdiv(x, fadd(ONE_BITS, abs_x(x)));
    let s0 = fadd(HALF_BITS, fmul(HALF_BITS, t));
    if sign_x(s0) {
        POS_ZERO
    } else if s0 <= ONE_BITS {
        s0
    } else {
        ONE_BITS
    }
}

/// The bit pattern is a value in [0, 1] or a NaN: what the bounding sigmoid
/// can produce.
pub open spec fn unit_or_nan(x: u32) -> bool {
    x <= ONE_BITS || is_nan_b(x)
}

/// Whatever its argument, the bounding sigmoid lands in [0, 1] or on a NaN.
pub proof fn lemma_logistic_unit(x: u32)
    ensures
        unit_or_nan(logistic_approx(x)),
{
    assert(0x7FC0_0000u32 & 0x7F80_0000 == 0x7F80_0000 && 0x7FC0_0000u32 & 0x007F_FFFF != 0)
        by (bit_vector);
}

/// One Newton step towards the square root of the value with bits `x`.
pub open spec fn sqrt_step(x: u32, y: u32) -> u32 {
    mul_bits(HALF_BITS, add_bits(y, div_bits(x, y)))
}

/// The square-root approximation this library computes: special cases follow
/// IEEE 754 (`sqrt` of a zero is that zero, of +infinity is +infinity, of a
/// NaN or a negative non-zero value is a NaN); otherwise four Newton steps
/// from a seed derived from the bit pattern.
pub open spec fn sqrt_approx(x: u32) -> u32 {
    if is_nan_b(x) || (sign_b(x) && !is_zero_b(x)) {
        QNAN_BITS
    } else if is_zero_b(x) || is_inf_b(x) {
        x
    } else {
        let g = ((x >> 1) + 0x1FBD_1DF5) as u32;
        sqrt_step(x, sqrt_step(x, sqrt_step(x, sqrt_step(x, g))))
    }
}

/// Square root of the value with bits `x`, by Newton iteration over the
/// trusted primitives.
pub fn fsqrt(x: u32) -> (r: u32)
    ensures
        r == sqrt_approx(x),
        x == POS_ZERO ==> r == POS_ZERO,
{
    proof {
        assert(0u32 & 0x7FFF_FFFF == 0 && 0u32 & 0x7F80_0000 == 0 && 0u32 & 0x8000_0000 == 0)
            by (bit_vector);
    }
    if is_nan_x(x) || (sign_x(x) && !is_zero_x(x)) {
        QNAN_BITS
    } else if is_zero_x(x) || is_inf_x(x) {
        x
    } else {
        assert(x >> 1 < 0x8000_0000u32) by (bit_vector);
        let g: u32 = (x >> 1) + 0x1FBD_1DF5;
        let y1 = fmul(HALF_BITS, fadd(g, fdiv(x, g)));
        let y2 = fmul(HALF_BITS, fadd(y1, fdiv(x, y1)));
        let y3 = fmul(HALF_BITS, fadd(y2, fdiv(x, y2)));
        let y4 = fmul(HALF_BITS, fadd(y3, fdiv(x, y3)));
        y4
    }
}

} // verus!
