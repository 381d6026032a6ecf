//! Fixed-point arithmetic helpers shared by the geometry and the track
//! builder.
//!
//! Coordinates are plain `i64` values; directions are unit vectors scaled
//! by `DIR_ONE`; authored angles are radians scaled by `ANGLE_ONE`.
//! Products are taken in `i128` and scaled back with truncating division.

use vstd::prelude::*;
use vstd::arithmetic::div_mod::{
    lemma_div_is_ordered, lemma_div_multiples_vanish, lemma_div_nonincreasing,
    lemma_div_pos_is_pos,
};

verus! {

/// Scale of unit direction vectors: a direction (x, y) stands for the
/// plane vector (x / DIR_ONE, y / DIR_ONE).
pub const DIR_ONE: i64 = 1_000_000;

/// Largest coordinate magnitude the geometry accepts.
pub const COORD_MAX: i64 = 500_000_000;

/// Scale of authored angles: an angle `a` stands for `a / ANGLE_ONE` radians.
pub const ANGLE_ONE: i64 = 1_000_000;

/// Truncating division (rounds toward zero) for a positive divisor.
pub open spec fn tdiv(a: int, b: int) -> int {
    if a >= 0 {
        a / b
    } else {
        -((-a) / b)
    }
}

/// Interval bound on a product.
pub proof fn lemma_mul_bound(a: int, b: int, m: int, n: int)
    by (nonlinear_arith)
    requires
        -m <= a <= m,
        -n <= b <= n,
    ensures
        -(m * n) <= a * b <= m * n,
{
}

/// Arithmetic-geometric mean inequality: |2ab| is at most a^2 + b^2.
pub proof fn lemma_two_mul_le_squares(a: int, b: int)
    by (nonlinear_arith)
    ensures
        -(a * a + b * b) <= 2 * (a * b) <= a * a + b * b,
{
}

/// Truncating division stays within any slack bound k with |a| <= b * k.
pub proof fn lemma_tdiv_bound(a: int, b: int, k: int)
    requires
        b > 0,
        0 <= k,
        -(b * k) <= a <= b * k,
    ensures
        -k <= tdiv(a, b) <= k,
{
    if a >= 0 {
        lemma_div_pos_is_pos(a, b);
        lemma_div_is_ordered(a, b * k, b);
        lemma_div_multiples_vanish(k, b);
    } else {
        lemma_div_pos_is_pos(-a, b);
        lemma_div_is_ordered(-a, b * k, b);
        lemma_div_multiples_vanish(k, b);
    }
}

/// Truncating division of a multiple is exact.
pub proof fn lemma_tdiv_exact(k: int, b: int)
    requires
        b > 0,
    ensures
        tdiv(k * b, b) == k,
{
    if k >= 0 {
        assert(k * b >= 0) by (nonlinear_arith)
            requires
                k >= 0,
                b > 0,
        ;
        lemma_div_multiples_vanish(k, b);
        assert((b * k) / b == k);
        assert(tdiv(k * b, b) == (k * b) / b);
        assert((k * b) / b == (b * k) / b);
    } else {
        assert(k * b < 0) by (nonlinear_arith)
            requires
                k < 0,
                b > 0,
        ;
        lemma_div_multiples_vanish(-k, b);
        assert((b * -k) / b == -k);
        assert(-(k * b) == (-k) * b) by (nonlinear_arith);
        assert(tdiv(k * b, b) == -((-(k * b)) / b));
        assert((-(k * b)) / b == ((-k) * b) / b);
        assert((-k) * b == b * -k) by (nonlinear_arith);
        assert(((-k) * b) / b == (b * -k) / b);
        assert(tdiv(k * b, b) == k);
    }
}

/// Truncating division of `i128` values by a positive divisor.
pub fn tdiv128(a: i128, b: i128) -> (r: i128)
    requires
        b > 0,
        a != i128::MIN,
    ensures
        r as int == tdiv(a as int, b as int),
{
    if a >= 0 {
        proof {
            lemma_div_pos_is_pos(a as int, b as int);
            lemma_div_nonincreasing(a as int, b as int);
        }
        let q: u128 = (a as u128) / (b as u128);
        q as i128
    } else {
        proof {
            lemma_div_pos_is_pos(-(a as int), b as int);
            lemma_div_nonincreasing(-(a as int), b as int);
        }
        let q: u128 = ((-a) as u128) / (b as u128);
        -(q as i128)
    }
}

} // verus!
