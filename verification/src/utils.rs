//! Elementwise vector arithmetic and the root-mean-squared error.
//!
//! Every vector holds binary32 bit patterns (see `fbits`). The four
//! arithmetic maps are exact images of the named scalar operations; division
//! is protected: where the divisor's magnitude falls below a fixed threshold
//! the numerator passes through unchanged, so division never fails.

use vstd::prelude::*;
use crate::fbits::{
    add_bits, sub_bits, mul_bits, div_bits, of_u64_bits, sqrt_approx, abs_b, is_nan_b,
    is_finite_b, cos_approx, logistic_approx, fadd, fsub, fmul, fdiv, fcos, flogistic, fsqrt,
    f_of_u64, is_nan_x, abs_x, POS_ZERO,
};

verus! {

/// Bits of the protected-division threshold (the binary32 value nearest
/// 0.00001): a divisor of smaller magnitude is treated as too close to zero.
pub const PDIV_LIMIT_BITS: u32 = 0x3727_C5AC;

/// Protected division. Non-negative bit patterns order as the values they
/// stand for, so comparing `abs_b(d)` with the threshold bits compares the
/// magnitudes; a NaN divisor is excluded and also passes the numerator
/// through.
pub open spec fn pdiv_bits(n: u32, d: u32) -> u32 {
    if !is_nan_b(d) && abs_b(d) >= PDIV_LIMIT_BITS {
        div_bits(n, d)
    } else {
        n
    }
}

/// `x` capped at the largest `usize` (the analytic sizes and depths of
/// geometric-semantic offspring saturate instead of overflowing).
pub open spec fn sat_cap(x: int) -> int {
    if x > usize::MAX as int {
        usize::MAX as int
    } else {
        x
    }
}

/// Saturating addition.
pub(crate) fn sat_add(a: usize, b: usize) -> (r: usize)
    ensures
        r as int == sat_cap(a + b),
{
    if a <= usize::MAX - b {
        a + b
    } else {
        usize::MAX
    }
}

/// Saturating doubling.
pub(crate) fn sat_double(a: usize) -> (r: usize)
    ensures
        r as int == sat_cap(2 * a),
{
    if a <= usize::MAX / 2 {
        2 * a
    } else {
        usize::MAX
    }
}

/// One protected division.
pub(crate) fn pdiv(n: u32, d: u32) -> (r: u32)
    ensures
        r == pdiv_bits(n, d),
{
    if !is_nan_x(d) && abs_x(d) >= PDIV_LIMIT_BITS {
        fdiv(n, d)
    } else {
        n
    }
}

/// The squared difference of two scalars.
pub open spec fn sq_diff_bits(a: u32, b: u32) -> u32 {
    mul_bits(sub_bits(a, b), sub_bits(a, b))
}

/// The running sum of squared differences over the first `k` positions.
pub open spec fn sse_bits(x: Seq<u32>, y: Seq<u32>, k: int) -> u32
    decreases k,
{
    if k <= 0 {
        POS_ZERO
    } else {
        add_bits(sse_bits(x, y, k - 1), sq_diff_bits(x[k - 1], y[k - 1]))
    }
}

/// The root-mean-squared error of `x` against `y`: the square root of the
/// sum of squared differences divided by the length.
pub open spec fn rmse_bits(x: Seq<u32>, y: Seq<u32>) -> u32 {
    sqrt_approx(div_bits(sse_bits(x, y, x.len() as int), of_u64_bits(x.len() as u64)))
}

/// Negating twice returns the original bit pattern.
pub proof fn lemma_neg_involutive(a: u32)
    ensures
        crate::fbits::neg_b(crate::fbits::neg_b(a)) == a,
{
    assert((a ^ 0x8000_0000) ^ 0x8000_0000 == a) by (bit_vector);
}

/// Root-mean-squared error of `x` against `y` (lengths must agree).
///
/// The last two clauses are laws of this function: on finite data the error
/// of a vector against itself is exactly +0.0, and the error is symmetric in
/// its arguments.
pub fn rmse(x: &Vec<u32>, y: &Vec<u32>) -> (r: u32)
    requires
        x@.len() == y@.len(),
    ensures
        r == rmse_bits(x@, y@),
        x@ == y@ && x@.len() >= 1 && (forall|j: int| 0 <= j < x@.len() ==> is_finite_b(x@[j]))
            ==> r == POS_ZERO,
        (forall|j: int| 0 <= j < x@.len() ==> is_finite_b(x@[j]) && is_finite_b(y@[j]))
            ==> r == rmse_bits(y@, x@),
{
    let n = x.len();
    let mut s: u32 = POS_ZERO;
    let mut i: usize = 0;
    while i < n
        invariant
            i <= n,
            n == x@.len(),
            y@.len() == n,
            s == sse_bits(x@, y@, i as int),
            x@ == y@ && (forall|j: int| 0 <= j < i ==> is_finite_b(x@[j])) ==> s == POS_ZERO,
            (forall|j: int| 0 <= j < i ==> is_finite_b(x@[j]) && is_finite_b(y@[j]))
                ==> s == sse_bits(y@, x@, i as int),
        decreases n - i,
    {
        let d = fsub(x[i], y[i]);
        let sq = fmul(d, d);
        proof {
            if x@[i as int] != y@[i as int] && is_finite_b(x@[i as int]) && is_finite_b(
                y@[i as int],
            ) {
                lemma_neg_involutive(sub_bits(y@[i as int], x@[i as int]));
            }
        }
        s = fadd(s, sq);
        i += 1;
    }
    let nf = f_of_u64(n as u64);
    let m = fdiv(s, nf);
    fsqrt(m)
}

/// Elementwise sum.
pub fn add(x: Vec<u32>, y: Vec<u32>) -> (r: Vec<u32>)
    requires
        x@.len() == y@.len(),
    ensures
        r@.len() == x@.len(),
        forall|i: int| 0 <= i < x@.len() ==> r@[i] == add_bits(x@[i], y@[i]),
{
    let n = x.len();
    let mut r: Vec<u32> = Vec::new();
    let mut i: usize = 0;
    while i < n
        invariant
            i <= n,
            n == x@.len(),
            y@.len() == n,
            r@.len() == i,
            forall|j: int| 0 <= j < i ==> r@[j] == add_bits(x@[j], y@[j]),
        decreases n - i,
    {
        r.push(fadd(x[i], y[i]));
        i += 1;
    }
    r
}

/// Elementwise difference.
pub fn subtract(x: Vec<u32>, y: Vec<u32>) -> (r: Vec<u32>)
    requires
        x@.len() == y@.len(),
    ensures
        r@.len() == x@.len(),
        forall|i: int| 0 <= i < x@.len() ==> r@[i] == sub_bits(x@[i], y@[i]),
{
    let n = x.len();
    let mut r: Vec<u32> = Vec::new();
    let mut i: usize = 0;
    while i < n
        invariant
            i <= n,
            n == x@.len(),
            y@.len() == n,
            r@.len() == i,
            forall|j: int| 0 <= j < i ==> r@[j] == sub_bits(x@[j], y@[j]),
        decreases n - i,
    {
        r.push(fsub(x[i], y[i]));
        i += 1;
    }
    r
}

/// Elementwise product.
pub fn multiply(x: Vec<u32>, y: Vec<u32>) -> (r: Vec<u32>)
    requires
        x@.len() == y@.len(),
    ensures
        r@.len() == x@.len(),
        forall|i: int| 0 <= i < x@.len() ==> r@[i] == mul_bits(x@[i], y@[i]),
{
    let n = x.len();
    let mut r: Vec<u32> = Vec::new();
    let mut i: usize = 0;
    while i < n
        invariant
            i <= n,
            n == x@.len(),
            y@.len() == n,
            r@.len() == i,
            forall|j: int| 0 <= j < i ==> r@[j] == mul_bits(x@[j], y@[j]),
        decreases n - i,
    {
        r.push(fmul(x[i], y[i]));
        i += 1;
    }
    r
}

/// Elementwise cosine.
pub fn cosine(x: Vec<u32>) -> (r: Vec<u32>)
    ensures
        r@.len() == x@.len(),
        forall|i: int| 0 <= i < x@.len() ==> r@[i] == cos_approx(x@[i]),
{
    let n = x.len();
    let mut r: Vec<u32> = Vec::new();
    let mut i: usize = 0;
    while i < n
        invariant
            i <= n,
            n == x@.len(),
            r@.len() == i,
            forall|j: int| 0 <= j < i ==> r@[j] == cos_approx(x@[j]),
        decreases n - i,
    {
        r.push(fcos(x[i]));
        i += 1;
    }
    r
}

/// Elementwise bounding sigmoid.
pub fn logistic(x: Vec<u32>) -> (r: Vec<u32>)
    ensures
        r@.len() == x@.len(),
        forall|i: int| 0 <= i < x@.len() ==> r@[i] == logistic_approx(x@[i]),
{
    let n = x.len();
    let mut r: Vec<u32> = Vec::new();
    let mut i: usize = 0;
    while i < n
        invariant
            i <= n,
            n == x@.len(),
            r@.len() == i,
            forall|j: int| 0 <= j < i ==> r@[j] == logistic_approx(x@[j]),
        decreases n - i,
    {
        r.push(flogistic(x[i]));
        i += 1;
    }
    r
}

/// Elementwise protected division: where the divisor's magnitude is at least
/// the threshold (and the divisor is not a NaN) the element is the exact
/// binary32 quotient; everywhere else the numerator element passes through
/// unchanged. The last two clauses state that law directly.
pub fn divide(x: Vec<u32>, y: Vec<u32>) -> (r: Vec<u32>)
    requires
        x@.len() == y@.len(),
    ensures
        r@.len() == x@.len(),
        forall|i: int| 0 <= i < x@.len() ==> r@[i] == pdiv_bits(x@[i], y@[i]),
        forall|i: int|
            0 <= i < x@.len() && !is_nan_b(y@[i]) && abs_b(y@[i]) >= PDIV_LIMIT_BITS ==> r@[i]
                == div_bits(x@[i], y@[i]),
        forall|i: int|
            0 <= i < x@.len() && (is_nan_b(y@[i]) || abs_b(y@[i]) < PDIV_LIMIT_BITS) ==> r@[i]
                == x@[i],
{
    let n = x.len();
    let mut r: Vec<u32> = Vec::new();
    let mut i: usize = 0;
    while i < n
        invariant
            i <= n,
            n == x@.len(),
            y@.len() == n,
            r@.len() == i,
            forall|j: int| 0 <= j < i ==> r@[j] == pdiv_bits(x@[j], y@[j]),
        decreases n - i,
    {
        let d = y[i];
        if !is_nan_x(d) && abs_x(d) >= PDIV_LIMIT_BITS {
            r.push(fdiv(x[i], d));
        } else {
            r.push(x[i]);
        }
        i += 1;
    }
    r
}

/// An owned copy of a vector of scalars.
pub(crate) fn copy_scalars(v: &Vec<u32>) -> (r: Vec<u32>)
    ensures
        r@ == v@,
{
    let n = v.len();
    let mut r: Vec<u32> = Vec::new();
    let mut i: usize = 0;
    while i < n
        invariant
            i <= n,
            n == v@.len(),
            r@ == v@.take(i as int),
        decreases n - i,
    {
        r.push(v[i]);
        i += 1;
    }
    proof {
        assert(v@.take(n as int) =~= v@);
    }
    r
}

} // verus!
