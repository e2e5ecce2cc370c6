//! World-space vectors and triangles.
//!
//! A `Vec3` holds three fixed-point coordinates (raw multiples of
//! `1/FX_ONE`).  All operations state their result exactly, including the
//! floor or truncation rounding of fixed-point products and quotients.

use vstd::prelude::*;
use crate::fixed::{
    div_trunc_i128, fx_mul, fx_mul_s, isqrt, lemma_fx_range, trunc_div, FX_ONE,
};
use vstd::arithmetic::div_mod::{lemma_div_is_ordered, lemma_div_multiples_vanish};

verus! {

/// Greatest componentwise raw product admitted by `dot` and `cross`
/// (`2^56 * FX_ONE`); keeps every fixed-point product within `i64`.
pub open spec fn product_ok(a: int, b: int) -> bool {
    -0x100000000000000 * (FX_ONE as int) <= a * b <= 0x100000000000000 * (FX_ONE as int)
}

/// `l` is the floored square root of the nonnegative integer `n`.
pub open spec fn is_length(l: int, n: int) -> bool {
    0 < l && l * l <= n && n < (l + 1) * (l + 1)
}

/// The floored square root of a positive integer: the unique `l` with
/// `l * l <= n < (l + 1) * (l + 1)`.
pub open spec fn sqrt_val(n: int) -> int {
    choose|l: int| is_length(l, n)
}

/// Only one integer can be the floored square root.
pub proof fn lemma_is_length_unique(l1: int, l2: int, n: int)
    requires
        is_length(l1, n),
        is_length(l2, n),
    ensures
        l1 == l2,
{
    assert(l1 == l2) by (nonlinear_arith)
        requires
            0 < l1 && l1 * l1 <= n && n < (l1 + 1) * (l1 + 1),
            0 < l2 && l2 * l2 <= n && n < (l2 + 1) * (l2 + 1),
    ;
}

/// A point or direction in world space.
#[derive(Copy, Clone, Debug, Default, PartialEq, Eq, Structural)]
pub struct Vec3 {
    pub x: i64,
    pub y: i64,
    pub z: i64,
}

/// A world-space triangle; the corner order `a, b, c` is its winding.
#[derive(Copy, Clone, Debug, Default, PartialEq, Eq, Structural)]
pub struct Triangle {
    pub a: Vec3,
    pub b: Vec3,
    pub c: Vec3,
}

impl Vec3 {
    /// All three coordinates lie within `[-m, m]`.
    pub open spec fn bounded(self, m: int) -> bool {
        -m <= self.x <= m && -m <= self.y <= m && -m <= self.z <= m
    }

    /// The squared raw length, exact.
    pub open spec fn norm2(self) -> int {
        self.x * self.x + self.y * self.y + self.z * self.z
    }

    pub fn add(&self, v: &Vec3) -> (r: Vec3)
        requires
            i64::MIN <= self.x + v.x <= i64::MAX,
            i64::MIN <= self.y + v.y <= i64::MAX,
            i64::MIN <= self.z + v.z <= i64::MAX,
        ensures
            r.x == self.x + v.x,
            r.y == self.y + v.y,
            r.z == self.z + v.z,
    {
        Vec3 { x: self.x + v.x, y: self.y + v.y, z: self.z + v.z }
    }

    pub fn sub(&self, v: &Vec3) -> (r: Vec3)
        requires
            i64::MIN <= self.x - v.x <= i64::MAX,
            i64::MIN <= self.y - v.y <= i64::MAX,
            i64::MIN <= self.z - v.z <= i64::MAX,
        ensures
            r.x == self.x - v.x,
            r.y == self.y - v.y,
            r.z == self.z - v.z,
    {
        Vec3 { x: self.x - v.x, y: self.y - v.y, z: self.z - v.z }
    }

    /// Scales by a fixed-point factor, each coordinate floored.
    pub fn scale(&self, s: i64) -> (r: Vec3)
        requires
            i64::MIN <= fx_mul_s(self.x as int, s as int) <= i64::MAX,
            i64::MIN <= fx_mul_s(self.y as int, s as int) <= i64::MAX,
            i64::MIN <= fx_mul_s(self.z as int, s as int) <= i64::MAX,
        ensures
            r.x == fx_mul_s(self.x as int, s as int),
            r.y == fx_mul_s(self.y as int, s as int),
            r.z == fx_mul_s(self.z as int, s as int),
    {
        Vec3 { x: fx_mul(self.x, s), y: fx_mul(self.y, s), z: fx_mul(self.z, s) }
    }

    /// The fixed-point dot product: the sum of the three floored
    /// componentwise products.
    pub fn dot(&self, v: &Vec3) -> (r: i64)
        requires
            product_ok(self.x as int, v.x as int),
            product_ok(self.y as int, v.y as int),
            product_ok(self.z as int, v.z as int),
        ensures
            r == fx_mul_s(self.x as int, v.x as int) + fx_mul_s(self.y as int, v.y as int)
                + fx_mul_s(self.z as int, v.z as int),
    {
        proof {
            lemma_fx_range(self.x as int, v.x as int, 0x100000000000000);
            lemma_fx_range(self.y as int, v.y as int, 0x100000000000000);
            lemma_fx_range(self.z as int, v.z as int, 0x100000000000000);
        }
        fx_mul(self.x, v.x) + fx_mul(self.y, v.y) + fx_mul(self.z, v.z)
    }

    /// The fixed-point cross product, each of the six partial products
    /// floored before the subtraction.
    pub fn cross(&self, v: &Vec3) -> (r: Vec3)
        requires
            product_ok(self.y as int, v.z as int),
            product_ok(self.z as int, v.y as int),
            product_ok(self.z as int, v.x as int),
            product_ok(self.x as int, v.z as int),
            product_ok(self.x as int, v.y as int),
            product_ok(self.y as int, v.x as int),
        ensures
            r.x == fx_mul_s(self.y as int, v.z as int) - fx_mul_s(self.z as int, v.y as int),
            r.y == fx_mul_s(self.z as int, v.x as int) - fx_mul_s(self.x as int, v.z as int),
            r.z == fx_mul_s(self.x as int, v.y as int) - fx_mul_s(self.y as int, v.x as int),
    {
        proof {
            lemma_fx_range(self.y as int, v.z as int, 0x100000000000000);
            lemma_fx_range(self.z as int, v.y as int, 0x100000000000000);
            lemma_fx_range(self.z as int, v.x as int, 0x100000000000000);
            lemma_fx_range(self.x as int, v.z as int, 0x100000000000000);
            lemma_fx_range(self.x as int, v.y as int, 0x100000000000000);
            lemma_fx_range(self.y as int, v.x as int, 0x100000000000000);
        }
        Vec3 {
            x: fx_mul(self.y, v.z) - fx_mul(self.z, v.y),
            y: fx_mul(self.z, v.x) - fx_mul(self.x, v.z),
            z: fx_mul(self.x, v.y) - fx_mul(self.y, v.x),
        }
    }

    /// The raw length: the integer square root of the squared raw length,
    /// characterised exactly by the two quadratic bounds.
    pub fn length(&self) -> (r: i64)
        requires
            self.bounded(0x7ffffffffffffff),
        ensures
            0 <= r,
            r * r <= self.norm2() < (r + 1) * (r + 1),
    {
        proof {
            assert(0 <= self.x * self.x <= 0x400000000000000000000000000000 && 0 <= self.y * self.y
                <= 0x400000000000000000000000000000 && 0 <= self.z * self.z
                <= 0x400000000000000000000000000000) by (nonlinear_arith)
                requires
                    -0x7ffffffffffffff <= self.x <= 0x7ffffffffffffff,
                    -0x7ffffffffffffff <= self.y <= 0x7ffffffffffffff,
                    -0x7ffffffffffffff <= self.z <= 0x7ffffffffffffff,
            ;
        }
        let xx: i128 = (self.x as i128) * (self.x as i128);
        let yy: i128 = (self.y as i128) * (self.y as i128);
        let zz: i128 = (self.z as i128) * (self.z as i128);
        let n: i128 = xx + yy + zz;
        let r: i128 = isqrt(n);
        proof {
            assert(r < 0x1000000000000000) by (nonlinear_arith)
                requires
                    0 <= r,
                    r * r <= n,
                    n < 0x1000000000000000000000000000000,
            ;
        }
        r as i64
    }

    /// Divides each coordinate by the raw length, truncating toward zero;
    /// the result's coordinates have magnitude at most `FX_ONE`.
    pub fn normalise(&self) -> (r: Vec3)
        requires
            self.bounded(0x7ffffffffffffff),
            self.norm2() > 0,
        ensures
            is_length(sqrt_val(self.norm2()), self.norm2()),
            r.x == trunc_div(self.x * (FX_ONE as int), sqrt_val(self.norm2())),
            r.y == trunc_div(self.y * (FX_ONE as int), sqrt_val(self.norm2())),
            r.z == trunc_div(self.z * (FX_ONE as int), sqrt_val(self.norm2())),
            r.bounded(FX_ONE as int),
    {
        let l: i64 = self.length();
        proof {
            assert(l > 0) by (nonlinear_arith)
                requires
                    0 <= l,
                    self.norm2() > 0,
                    self.norm2() < (l + 1) * (l + 1),
            ;
            assert(self.x * self.x < (l + 1) * (l + 1) && self.y * self.y < (l + 1) * (l + 1)
                && self.z * self.z < (l + 1) * (l + 1)) by (nonlinear_arith)
                requires
                    self.x * self.x + self.y * self.y + self.z * self.z < (l + 1) * (l + 1),
            ;
        }
        let rx: i64 = norm_component(self.x, l);
        let ry: i64 = norm_component(self.y, l);
        let rz: i64 = norm_component(self.z, l);
        let r = Vec3 { x: rx, y: ry, z: rz };
        proof {
            let li = l as int;
            assert(is_length(li, self.norm2()));
            assert(is_length(sqrt_val(self.norm2()), self.norm2()));
            lemma_is_length_unique(sqrt_val(self.norm2()), li, self.norm2());
        }
        r
    }
}

/// One coordinate of a normalised vector: `c * FX_ONE / l` truncated toward
/// zero, with magnitude at most `FX_ONE` because `|c| <= l`.
fn norm_component(c: i64, l: i64) -> (r: i64)
    requires
        0 < l,
        c * c < (l + 1) * (l + 1),
    ensures
        r == trunc_div(c * (FX_ONE as int), l as int),
        -FX_ONE <= r <= FX_ONE,
{
    proof {
        assert(c <= l && -c <= l) by (nonlinear_arith)
            requires
                0 < l,
                c * c < (l + 1) * (l + 1),
        ;
        let one = FX_ONE as int;
        assert(-(l * one) <= c * one <= l * one) by (nonlinear_arith)
            requires
                -l <= c <= l,
                one > 0,
        ;
        lemma_div_is_ordered(c * one, l * one, l as int);
        lemma_div_is_ordered(-(l * one), c * one, l as int);
        assert(l * one == (l as int) * one && -(l * one) == (l as int) * (-one))
            by (nonlinear_arith);
        lemma_div_multiples_vanish(one, l as int);
        lemma_div_multiples_vanish(-one, l as int);
        assert((l * one) / (l as int) == one && (-(l * one)) / (l as int) == -one);
        assert(-one <= (c * one) / (l as int) <= one);
        assert(-one <= trunc_div(c * one, l as int) <= one) by {
            if c * one >= 0 {
            } else {
                assert(trunc_div(c * one, l as int) == -((-(c * one)) / (l as int)));
                lemma_div_is_ordered(-(c * one), l * one, l as int);
                vstd::arithmetic::div_mod::lemma_div_pos_is_pos(-(c * one), l as int);
            }
        };
    }
    let q: i128 = div_trunc_i128((c as i128) * (FX_ONE as i128), l as i128);
    q as i64
}

} // verus!
