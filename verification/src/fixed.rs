//! Fixed-point scalar arithmetic for the solver.
//!
//! Every field value and coefficient is a signed 64-bit fixed-point number
//! with `FRAC_ONE` fractional units per 1.0.  All intermediate arithmetic is
//! carried out in `i128`, where it is proved free of overflow; every value
//! written back into a field is saturated into `[-SAT_MAX, SAT_MAX]`, so the
//! solver is total and never panics.

use vstd::prelude::*;
use vstd::arithmetic::div_mod::{
    lemma_div_is_ordered, lemma_div_multiples_vanish, lemma_div_nonincreasing,
};

verus! {

/// Number of fixed-point units per 1.0.
pub const FRAC_ONE: i64 = 1_000_000;

/// Half of one fixed-point unit: the 0.5 margin used when clamping
/// back-traced positions during advection.
pub const FRAC_HALF: i64 = 500_000;

/// Magnitude bound kept on every stored scalar: writes saturate here.
pub const SAT_MAX: i64 = 1_000_000_000_000_000_000;

/// Truncating (round-toward-zero) division, the semantics of the executable
/// division used throughout the solver.  Defined for positive divisors.
pub open spec fn tdiv(a: int, b: int) -> int
    recommends
        b > 0,
{
    if a >= 0 {
        a / b
    } else {
        -((-a) / b)
    }
}

/// Saturation of a mathematical integer into `[-SAT_MAX, SAT_MAX]`.
pub open spec fn sat64(v: int) -> int {
    if v > SAT_MAX as int {
        SAT_MAX as int
    } else if v < -(SAT_MAX as int) {
        -(SAT_MAX as int)
    } else {
        v
    }
}

/// Fixed-point product: multiply and rescale with truncation.
pub open spec fn fxmul(a: int, b: int) -> int {
    tdiv(a * b, FRAC_ONE as int)
}

/// Clamp `v` into `[lo, hi]`.
pub open spec fn clampi(v: int, lo: int, hi: int) -> int
    recommends
        lo <= hi,
{
    if v < lo {
        lo
    } else if v > hi {
        hi
    } else {
        v
    }
}

/// A quotient is no larger in magnitude than any multiple-of-the-divisor
/// bound on the dividend.
pub proof fn lemma_tdiv_bound(a: int, b: int, m: int)
    requires
        b > 0,
        0 <= m,
        -(m * b) <= a <= m * b,
    ensures
        -m <= tdiv(a, b) <= m,
{
    lemma_div_multiples_vanish(m, b);
    assert((b * m) / b == m) by {
        assert(b * m == m * b) by (nonlinear_arith);
    }
    if a >= 0 {
        lemma_div_is_ordered(a, m * b, b);
        assert(a / b >= 0) by {
            lemma_div_is_ordered(0, a, b);
            lemma_div_multiples_vanish(0, b);
        }
        assert(m * b == b * m);
    } else {
        lemma_div_is_ordered(-a, m * b, b);
        assert((-a) / b >= 0) by {
            lemma_div_is_ordered(0, -a, b);
            lemma_div_multiples_vanish(0, b);
        }
        assert(m * b == b * m);
    }
}

/// A quotient of a non-negative dividend is non-negative.
pub proof fn lemma_tdiv_nonneg(a: int, b: int)
    requires
        b > 0,
        a >= 0,
    ensures
        tdiv(a, b) >= 0,
{
    lemma_div_is_ordered(0, a, b);
    lemma_div_multiples_vanish(0, b);
}

/// Dividing zero gives zero.
pub proof fn lemma_tdiv_zero(b: int)
    requires
        b > 0,
    ensures
        tdiv(0, b) == 0,
{
    lemma_tdiv_bound(0, b, 0);
}

/// Truncating division of an exact multiple recovers the factor.
pub proof fn lemma_tdiv_exact(x: int, b: int)
    requires
        b > 0,
    ensures
        tdiv(x * b, b) == x,
{
    if x >= 0 {
        lemma_div_multiples_vanish(x, b);
        assert(x * b == b * x) by (nonlinear_arith);
    } else {
        lemma_div_multiples_vanish(-x, b);
        assert(-(x * b) == b * (-x)) by (nonlinear_arith);
    }
}

/// Truncating division, computed on magnitudes so that the executable
/// semantics is exactly `tdiv`.
pub fn div_trunc(a: i128, b: i128) -> (q: i128)
    requires
        b > 0,
        -(i128::MAX as int) <= a,
    ensures
        q as int == tdiv(a as int, b as int),
{
    if a >= 0 {
        let q: u128 = (a as u128) / (b as u128);
        proof {
            lemma_div_nonincreasing(a as int, b as int);
            lemma_div_is_ordered(0, a as int, b as int);
            lemma_div_multiples_vanish(0, b as int);
        }
        q as i128
    } else {
        let m: u128 = (-a) as u128;
        let q: u128 = m / (b as u128);
        proof {
            lemma_div_nonincreasing(m as int, b as int);
            lemma_div_is_ordered(0, m as int, b as int);
            lemma_div_multiples_vanish(0, b as int);
        }
        -(q as i128)
    }
}

/// Saturating narrowing of an `i128` intermediate into a stored scalar.
pub fn sat_narrow(v: i128) -> (r: i64)
    ensures
        r as int == sat64(v as int),
        -SAT_MAX <= r <= SAT_MAX,
{
    if v > SAT_MAX as i128 {
        SAT_MAX
    } else if v < -(SAT_MAX as i128) {
        -SAT_MAX
    } else {
        v as i64
    }
}

} // verus!
