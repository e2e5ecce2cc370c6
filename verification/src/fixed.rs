//! Fixed-point scalar arithmetic for the geometry pipeline.
//!
//! World-space coordinates, depths, and trigonometric values are stored as
//! `i64` multiples of `1/FX_ONE`.  All operations are exact integer
//! computations whose rounding behaviour (floor or truncation) is stated in
//! the contracts, so every later stage of the pipeline can be specified as a
//! precise function of its inputs.

use vstd::prelude::*;
use vstd::arithmetic::div_mod::{
    lemma_div_is_ordered, lemma_div_multiples_vanish, lemma_div_pos_is_pos,
    lemma_fundamental_div_mod, lemma_fundamental_div_mod_converse,
};
use vstd::arithmetic::mul::{lemma_mul_inequality, lemma_mul_upper_bound};

verus! {

/// Number of fractional steps in one world unit: a coordinate of `FX_ONE`
/// raw steps is one unit long.
pub const FX_ONE: i64 = 65536;

/// Greatest raw magnitude admitted for a well-formed world coordinate
/// (2^34 raw steps, about 2.6e5 world units).
pub const COORD_MAX: i64 = 17179869184;

/// Greatest raw magnitude admitted for a screen coordinate before clipping
/// (2^20 pixels); projection saturates into this range.
pub const SCREEN_MAX: i64 = 1048576;

/// Greatest raw magnitude admitted for an interpolated depth value (2^50).
pub const DEPTH_MAX: i64 = 1125899906842624;

/// Floor division, the rounding used by fixed-point products and slope
/// interpolation.  Equals `a / b` of the specification language whenever
/// `b > 0`.
pub open spec fn floor_div(a: int, b: int) -> int {
    a / b
}

/// Division rounding toward zero, the rounding Rust's `/` performs and the
/// one projection inherits from the original's float-to-integer casts.
pub open spec fn trunc_div(a: int, b: int) -> int {
    if a >= 0 {
        a / b
    } else {
        -((-a) / b)
    }
}

/// The fixed-point product: the real product of the two operands, floored
/// to the next representable step.
pub open spec fn fx_mul_s(a: int, b: int) -> int {
    (a * b) / (FX_ONE as int)
}

/// Floor division of `i128` values with a positive divisor.
pub fn div_floor_i128(a: i128, b: i128) -> (q: i128)
    requires
        0 < b,
    ensures
        q == floor_div(a as int, b as int),
{
    let t: i128 = a / b;
    let m: i128 = a % b;
    if a >= 0 {
        t
    } else {
        proof {
            let na = -(a as int);
            lemma_fundamental_div_mod(na, b as int);
            assert(t == -(na / (b as int)) && m == -(na % (b as int)));
            assert(a == (t as int) * (b as int) + m) by (nonlinear_arith)
                requires
                    -(a as int) == (b as int) * ((-(a as int)) / (b as int)) + (-(a as int)) % (
                    b as int),
                    t == -((-(a as int)) / (b as int)),
                    m == -((-(a as int)) % (b as int)),
            ;
        }
        if m == 0 {
            proof {
                lemma_fundamental_div_mod_converse(a as int, b as int, t as int, 0);
            }
            t
        } else {
            proof {
                // a == t * b + m with -b < m < 0, so the floor quotient is t - 1.
                assert(a == ((t as int) - 1) * (b as int) + ((b as int) + m)) by (nonlinear_arith)
                    requires
                        a == (t as int) * (b as int) + m,
                ;
                lemma_fundamental_div_mod_converse(
                    a as int,
                    b as int,
                    t as int - 1,
                    (b as int) + m,
                );
                assert(2 <= b);
                assert(t > i128::MIN) by (nonlinear_arith)
                    requires
                        a == t * b + m,
                        -b < m < 0,
                        2 <= b,
                ;
            }
            t - 1
        }
    }
}

/// Division of `i128` values rounding toward zero, with a positive divisor.
pub fn div_trunc_i128(a: i128, b: i128) -> (q: i128)
    requires
        0 < b,
    ensures
        q == trunc_div(a as int, b as int),
{
    a / b
}

/// The fixed-point product of two raw values, floored.
pub fn fx_mul(a: i64, b: i64) -> (r: i64)
    requires
        i64::MIN <= fx_mul_s(a as int, b as int) <= i64::MAX,
    ensures
        r == fx_mul_s(a as int, b as int),
{
    let p: i128 = (a as i128) * (b as i128);
    let q: i128 = div_floor_i128(p, FX_ONE as i128);
    q as i64
}

/// A fixed-point factor of magnitude at most `FX_ONE` (such as a sine or
/// cosine) shrinks magnitudes: the floored product of `a` with it stays
/// within the bound of `b`.
pub proof fn lemma_fx_mul_bound(a: int, b: int, m: int)
    requires
        -FX_ONE <= a <= FX_ONE,
        -m <= b <= m,
        0 <= m,
    ensures
        -m <= fx_mul_s(a, b) <= m,
{
    let one = FX_ONE as int;
    assert(-(one * m) <= a * b <= one * m) by (nonlinear_arith)
        requires
            -one <= a <= one,
            -m <= b <= m,
            0 <= m,
            one > 0,
    ;
    lemma_div_is_ordered(a * b, one * m, one);
    lemma_div_is_ordered(-(one * m), a * b, one);
    lemma_div_multiples_vanish(m, one);
    lemma_div_multiples_vanish(-m, one);
    assert(one * m == m * one && -(one * m) == (-m) * one) by (nonlinear_arith);
    assert((one * m) / one == m);
    assert((-(one * m)) / one == -m) by {
        assert(-(one * m) == one * (-m)) by (nonlinear_arith);
    };
}

/// A raw product bounded by `p * FX_ONE` gives a fixed-point product
/// bounded by `p`.
pub proof fn lemma_fx_range(a: int, b: int, p: int)
    requires
        0 <= p,
        -p * (FX_ONE as int) <= a * b <= p * (FX_ONE as int),
    ensures
        -p <= fx_mul_s(a, b) <= p,
{
    let one = FX_ONE as int;
    lemma_div_is_ordered(a * b, p * one, one);
    lemma_div_is_ordered(-p * one, a * b, one);
    assert(p * one == one * p && -p * one == one * (-p)) by (nonlinear_arith);
    lemma_div_multiples_vanish(p, one);
    lemma_div_multiples_vanish(-p, one);
}

/// Floored linear interpolation `s + (d * num) / den` with `num/den` in
/// `[0, 1]` lands between `s` and `s + d`.
pub proof fn lemma_interp_in_range(d: int, num: int, den: int)
    requires
        0 < den,
        0 <= num <= den,
    ensures
        d >= 0 ==> 0 <= (d * num) / den <= d,
        d < 0 ==> d <= (d * num) / den <= 0,
{
    if d >= 0 {
        vstd::arithmetic::mul::lemma_mul_nonnegative(d, num);
        lemma_div_pos_is_pos(d * num, den);
        assert(d * num <= den * d) by (nonlinear_arith)
            requires
                0 <= num <= den,
                d >= 0,
        ;
        lemma_div_is_ordered(d * num, den * d, den);
        lemma_div_multiples_vanish(d, den);
    } else {
        assert(den * d <= d * num && d * num <= 0) by (nonlinear_arith)
            requires
                0 <= num <= den,
                d < 0,
        ;
        lemma_div_is_ordered(den * d, d * num, den);
        lemma_div_multiples_vanish(d, den);
        lemma_div_is_ordered(d * num, 0, den);
        vstd::arithmetic::div_mod::lemma_div_of0(den);
    }
}

/// A fixed-point product with one or zero is exact: scaling by one
/// returns the operand, scaling by zero returns zero.
pub proof fn lemma_fx_identity(v: int)
    ensures
        fx_mul_s(FX_ONE as int, v) == v,
        fx_mul_s(0, v) == 0,
{
    let one = FX_ONE as int;
    lemma_div_multiples_vanish(v, one);
    assert(one * v == (FX_ONE as int) * v);
    assert(0 * v == 0) by (nonlinear_arith);
    vstd::arithmetic::div_mod::lemma_div_of0(one);
}

/// For a nonpositive numerator, a larger positive divisor gives a larger
/// (closer to zero) floored quotient.
pub proof fn lemma_div_neg_ordered_by_denominator(n: int, d1: int, d2: int)
    requires
        n <= 0,
        1 <= d1 <= d2,
    ensures
        n / d1 <= n / d2,
{
    let q2 = n / d2;
    lemma_div_is_ordered(n, 0, d1);
    lemma_div_is_ordered(n, 0, d2);
    vstd::arithmetic::div_mod::lemma_div_of0(d1);
    vstd::arithmetic::div_mod::lemma_div_of0(d2);
    lemma_fundamental_div_mod(n, d2);
    if q2 < 0 {
        assert(n < d2 * (q2 + 1)) by (nonlinear_arith)
            requires
                n == d2 * q2 + (n % d2),
                0 <= n % d2 < d2,
        ;
        assert(d2 * (q2 + 1) <= d1 * (q2 + 1)) by (nonlinear_arith)
            requires
                q2 + 1 <= 0,
                1 <= d1 <= d2,
        ;
        assert(q2 * d1 + (d1 - 1) == d1 * (q2 + 1) - 1) by (nonlinear_arith);
        lemma_div_is_ordered(n, d1 * (q2 + 1) - 1, d1);
        lemma_fundamental_div_mod_converse(d1 * (q2 + 1) - 1, d1, q2, d1 - 1);
    }
}

/// Floor division by a positive divisor never grows a value's magnitude.
pub proof fn lemma_div_bound(a: int, b: int)
    requires
        1 <= b,
    ensures
        a >= 0 ==> 0 <= a / b <= a,
        a < 0 ==> a <= a / b <= 0,
{
    if a >= 0 {
        lemma_div_pos_is_pos(a, b);
        vstd::arithmetic::div_mod::lemma_div_nonincreasing(a, b);
    } else {
        lemma_div_is_ordered(a, 0, b);
        vstd::arithmetic::div_mod::lemma_div_of0(b);
        lemma_fundamental_div_mod(a, b);
        let q = a / b;
        let r = a % b;
        assert(q >= a) by (nonlinear_arith)
            requires
                a == b * q + r,
                0 <= r < b,
                a < 0,
                1 <= b,
        ;
    }
}

/// Clamps `value` into the closed interval `[low, high]`.
pub fn clamp(low: i64, value: i64, high: i64) -> (r: i64)
    requires
        low <= high,
    ensures
        r == clamp_s(low as int, value as int, high as int),
{
    if value < low {
        low
    } else if value > high {
        high
    } else {
        value
    }
}

/// The value of a clamp: the nearest point of `[low, high]`.
pub open spec fn clamp_s(low: int, value: int, high: int) -> int {
    if value < low {
        low
    } else if value > high {
        high
    } else {
        value
    }
}

/// Integer square root: the greatest integer whose square does not exceed
/// the operand.  Used for vector lengths.
pub fn isqrt(n: i128) -> (r: i128)
    requires
        0 <= n < 0x1000000000000000000000000000000,
    ensures
        0 <= r,
        r * r <= n,
        n < (r + 1) * (r + 1),
{
    let mut lo: i128 = 0;
    let mut hi: i128 = 0x1000000000000000;
    assert(0x1000000000000000i128 * 0x1000000000000000i128
        == 0x1000000000000000000000000000000i128) by (nonlinear_arith);
    while hi - lo > 1
        invariant
            0 <= lo < hi <= 0x1000000000000000,
            lo * lo <= n,
            n < hi * hi,
        decreases hi - lo,
    {
        let mid: i128 = lo + (hi - lo) / 2;
        assert(lo < mid < hi);
        assert(mid * mid <= 0x1000000000000000i128 * 0x1000000000000000i128) by (nonlinear_arith)
            requires
                0 < mid < 0x1000000000000000i128,
        ;
        if mid * mid <= n {
            lo = mid;
        } else {
            hi = mid;
        }
    }
    lo
}

} // verus!
