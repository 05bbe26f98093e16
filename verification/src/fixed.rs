//! The fixed-point number format shared by every coordinate of the plane.
//!
//! A coordinate is an `i64` that stands for the rational `raw / 2^32`.
//! Products and quotients are rounded toward zero, which keeps every
//! operation odd: negating an operand negates the result.

use vstd::prelude::*;
use vstd::arithmetic::div_mod::{lemma_div_denominator, lemma_div_is_ordered};

verus! {

/// Number of fractional bits of a coordinate.
pub const FRACTION_BITS: u32 = 32;

/// The coordinate that stands for the number one.
pub const ONE: i64 = 4294967296;

/// The number of raw units in one: `2^32`.
pub open spec fn scale() -> int {
    4294967296
}

/// Quotient of `a` by a positive `b`, rounded toward zero.
pub open spec fn trunc_div(a: int, b: int) -> int {
    if a >= 0 {
        a / b
    } else {
        -((-a) / b)
    }
}

/// Product of two coordinates, rounded toward zero to a coordinate.
pub open spec fn fixed_mul(a: int, b: int) -> int {
    trunc_div(a * b, scale())
}

/// The point `index / count` of the way from `start` to `end`, rounded toward
/// `start`.
pub open spec fn lerp(start: int, end: int, index: int, count: int) -> int {
    start + trunc_div(index * (end - start), count)
}

/// Rounding toward zero commutes with negation.
pub proof fn lemma_trunc_div_odd(a: int, b: int)
    requires
        b > 0,
    ensures
        trunc_div(-a, b) == -trunc_div(a, b),
{
    if a == 0 {
        assert(0int / b == 0) by (nonlinear_arith)
            requires
                b > 0,
        ;
    }
}

/// A quotient rounded toward zero lies between zero and any whole bound of
/// the exact quotient.
pub proof fn lemma_trunc_div_between(a: int, b: int, m: int)
    requires
        b > 0,
        (0 <= a <= m * b) || (m * b <= a <= 0),
    ensures
        (0 <= m ==> 0 <= trunc_div(a, b) <= m),
        (m <= 0 ==> m <= trunc_div(a, b) <= 0),
{
    if a > 0 {
        assert(0 <= a / b <= m && m > 0) by (nonlinear_arith)
            requires
                b > 0,
                0 < a <= m * b,
        ;
    } else if a < 0 {
        let n = -a;
        let k = -m;
        assert(0 <= n / b <= k && k > 0) by (nonlinear_arith)
            requires
                b > 0,
                n == -a,
                k == -m,
                m * b <= a < 0,
        ;
    } else {
        assert(0int / b == 0) by (nonlinear_arith)
            requires
                b > 0,
        ;
    }
}

/// An exact multiple is divided without rounding.
pub proof fn lemma_trunc_div_exact(q: int, b: int)
    requires
        b > 0,
    ensures
        trunc_div(q * b, b) == q,
{
    if q >= 0 {
        assert(q * b >= 0 && (q * b) / b == q) by (nonlinear_arith)
            requires
                b > 0,
                q >= 0,
        ;
    } else {
        let n = -q;
        assert(q * b < 0 && -(q * b) == n * b && (n * b) / b == n) by (nonlinear_arith)
            requires
                b > 0,
                n > 0,
                n == -q,
        ;
    }
}

/// An interpolated point lies between the two ends.
pub proof fn lemma_lerp_between(start: int, end: int, index: int, count: int)
    requires
        0 <= index <= count,
        count > 0,
    ensures
        start <= end ==> start <= lerp(start, end, index, count) <= end,
        end <= start ==> end <= lerp(start, end, index, count) <= start,
{
    let delta: int = end - start;
    let a: int = index * delta;
    assert(delta >= 0 ==> 0 <= a <= delta * count) by (nonlinear_arith)
        requires
            a == index * delta,
            0 <= index <= count,
    ;
    assert(delta <= 0 ==> delta * count <= a <= 0) by (nonlinear_arith)
        requires
            a == index * delta,
            0 <= index <= count,
    ;
    lemma_trunc_div_between(a, count, delta);
    assert(lerp(start, end, index, count) == start + trunc_div(a, count));
}

/// Interpolation begins at `start` and ends at `end`.
pub proof fn lemma_lerp_ends(start: int, end: int, count: int)
    requires
        count > 0,
    ensures
        lerp(start, end, 0, count) == start,
        lerp(start, end, count, count) == end,
{
    assert(0 * (end - start) == 0) by (nonlinear_arith);
    lemma_trunc_div_exact(0, count);
    assert(0 * count == 0) by (nonlinear_arith);
    assert(count * (end - start) == (end - start) * count) by (nonlinear_arith);
    lemma_trunc_div_exact(end - start, count);
}

/// Interpolation between ascending ends goes upward with the index.
pub proof fn lemma_lerp_monotone(start: int, end: int, i: int, j: int, count: int)
    requires
        start <= end,
        0 <= i <= j,
        count > 0,
    ensures
        lerp(start, end, i, count) <= lerp(start, end, j, count),
{
    let delta: int = end - start;
    assert(0 <= i * delta <= j * delta) by (nonlinear_arith)
        requires
            0 <= i <= j,
            delta >= 0,
    ;
    lemma_div_is_ordered(i * delta, j * delta, count);
}

/// Interpolation depends on the index and the count only through their
/// ratio: a common factor of both changes nothing.
pub proof fn lemma_lerp_scale(start: int, end: int, index: int, count: int, factor: int)
    requires
        start <= end,
        0 <= index,
        count > 0,
        factor > 0,
    ensures
        lerp(start, end, index * factor, count * factor) == lerp(start, end, index, count),
{
    let delta: int = end - start;
    let a: int = index * delta;
    assert(0 <= a && (index * factor) * delta == a * factor && 0 <= a * factor)
        by (nonlinear_arith)
        requires
            a == index * delta,
            0 <= index,
            0 <= delta,
            factor > 0,
    ;
    assert(count * factor == factor * count) by (nonlinear_arith);
    lemma_div_denominator(a * factor, factor, count);
    assert((a * factor) / factor == a) by (nonlinear_arith)
        requires
            factor > 0,
    ;
}

/// The coordinate that stands for a whole number.
pub fn from_int(n: i32) -> (r: i64)
    ensures
        r == n * scale(),
{
    (n as i64) * ONE
}

/// Linear interpolation between two coordinates: the point `index / count` of
/// the way from `start` to `end`, rounded toward `start`.
pub fn interpolate(start: i64, end: i64, index: u32, count: u32) -> (r: i64)
    requires
        0 < count,
        index <= count,
    ensures
        r == lerp(start as int, end as int, index as int, count as int),
{
    let delta: i128 = end as i128 - start as i128;
    assert(-0x1_0000_0000_0000_0000_0000_0000 < index * delta < 0x1_0000_0000_0000_0000_0000_0000)
        by (nonlinear_arith)
        requires
            0 <= index < 0x1_0000_0000,
            -0x1_0000_0000_0000_0000 < delta < 0x1_0000_0000_0000_0000,
    ;
    let offset: i128 = (index as i128 * delta) / (count as i128);
    proof {
        lemma_lerp_between(start as int, end as int, index as int, count as int);
    }
    (start as i128 + offset) as i64
}

} // verus!
