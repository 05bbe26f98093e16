//! The escape-time test for one sample.
//!
//! The orbit of a sample `c` starts at zero and follows `z -> z^2 + c` in
//! fixed-point arithmetic. The orbit has escaped once its squared modulus
//! `x^2 + y^2` reaches 4; the test on the difference `x^2 - y^2` is not used.
//! A sample is in the set, for a given budget, when none of the first
//! `budget` iterates has escaped.

use vstd::prelude::*;
use crate::fixed::{fixed_mul, lemma_trunc_div_between, lemma_trunc_div_odd, scale, ONE};

verus! {

/// One iteration of `z -> z^2 + c`: the real part is `x^2 - y^2 + p` and the
/// imaginary part `2xy + q`, each product rounded toward zero.
pub open spec fn step(z: (int, int), c: (int, int)) -> (int, int) {
    (fixed_mul(z.0, z.0) - fixed_mul(z.1, z.1) + c.0, fixed_mul(2 * z.0, z.1) + c.1)
}

/// The escape predicate: the squared modulus of `z` is at least 4.
pub open spec fn escaped(z: (int, int)) -> bool {
    z.0 * z.0 + z.1 * z.1 >= 4 * scale() * scale()
}

/// The `k`-th iterate of the orbit of `c`; the orbit starts at zero.
pub open spec fn orbit(c: (int, int), k: nat) -> (int, int)
    decreases k,
{
    if k == 0 {
        (0, 0)
    } else {
        step(orbit(c, (k - 1) as nat), c)
    }
}

/// The first iteration, among `1..=budget`, whose iterate has escaped.
pub open spec fn escape_time(c: (int, int), budget: nat) -> Option<nat>
    decreases budget,
{
    if budget == 0 {
        None
    } else {
        match escape_time(c, (budget - 1) as nat) {
            Some(k) => Some(k),
            None => if escaped(orbit(c, budget)) {
                Some(budget)
            } else {
                None
            },
        }
    }
}

/// A sample is in the set when its orbit ran the whole budget without
/// escaping.
pub open spec fn in_set(c: (int, int), budget: nat) -> bool {
    escape_time(c, budget) is None
}

/// The escape time is the least iteration whose iterate has escaped, and there
/// is none exactly when no iterate up to the budget has escaped.
pub proof fn lemma_escape_time_is_first(c: (int, int), budget: nat)
    ensures
        match escape_time(c, budget) {
            Some(k) => 1 <= k <= budget && escaped(orbit(c, k)) && forall|j: nat|
                1 <= j < k ==> !escaped(#[trigger] orbit(c, j)),
            None => forall|j: nat| 1 <= j <= budget ==> !escaped(#[trigger] orbit(c, j)),
        },
    decreases budget,
{
    if budget > 0 {
        lemma_escape_time_is_first(c, (budget - 1) as nat);
    }
}

/// A larger budget finds the same escape, at the same iteration; and a sample
/// that is in the set under a budget is in the set under every smaller one.
pub proof fn lemma_budget_monotone(c: (int, int), small: nat, large: nat)
    requires
        small <= large,
    ensures
        escape_time(c, small) is Some ==> escape_time(c, large) == escape_time(c, small),
        in_set(c, large) ==> in_set(c, small),
    decreases large,
{
    if small < large {
        lemma_budget_monotone(c, small, (large - 1) as nat);
    }
}

/// The orbit of the origin stays at the origin, so the origin is in the set
/// under every budget.
pub proof fn lemma_origin_in_set(budget: nat)
    ensures
        orbit((0, 0), budget) == (0int, 0int),
        in_set((0, 0), budget),
    decreases budget,
{
    if budget > 0 {
        lemma_origin_in_set((budget - 1) as nat);
        assert(step((0, 0), (0, 0)) == (0int, 0int)) by {
            assert(0int / scale() == 0) by (nonlinear_arith);
        }
    }
}

/// The sample at 2 on the real axis escapes at the first iteration, whatever
/// the budget, as long as there is one iteration.
pub proof fn lemma_two_escapes(budget: nat)
    requires
        budget >= 1,
    ensures
        escape_time((2 * scale(), 0), budget) == Some(1nat),
        !in_set((2 * scale(), 0), budget),
{
    let c: (int, int) = (2 * scale(), 0);
    assert(orbit(c, 0) == (0int, 0int));
    assert(orbit(c, 1) == step(orbit(c, 0), c));
    assert(step((0, 0), c) == c) by {
        assert(0int / scale() == 0) by (nonlinear_arith);
    }
    assert(escaped(c)) by (nonlinear_arith)
        requires
            c == (2 * scale(), 0int),
    ;
    assert(escape_time(c, 0) is None);
    assert(escape_time(c, 1) == Some(1nat));
    lemma_budget_monotone(c, 1, budget);
}

/// Mirroring a sample in the real axis mirrors its whole orbit.
pub proof fn lemma_orbit_conjugate(c: (int, int), k: nat)
    ensures
        orbit((c.0, -c.1), k) == (orbit(c, k).0, -orbit(c, k).1),
    decreases k,
{
    if k > 0 {
        lemma_orbit_conjugate(c, (k - 1) as nat);
        let z: (int, int) = orbit(c, (k - 1) as nat);
        assert((-z.1) * (-z.1) == z.1 * z.1) by (nonlinear_arith);
        assert((2 * z.0) * (-z.1) == -((2 * z.0) * z.1)) by (nonlinear_arith);
        lemma_trunc_div_odd((2 * z.0) * z.1, scale());
    }
}

/// Mirroring a sample in the real axis changes neither whether nor when it
/// escapes.
pub proof fn lemma_escape_time_conjugate(c: (int, int), budget: nat)
    ensures
        escape_time((c.0, -c.1), budget) == escape_time(c, budget),
        in_set((c.0, -c.1), budget) == in_set(c, budget),
    decreases budget,
{
    if budget > 0 {
        lemma_escape_time_conjugate(c, (budget - 1) as nat);
        lemma_orbit_conjugate(c, budget);
        let z: (int, int) = orbit(c, budget);
        assert((-z.1) * (-z.1) == z.1 * z.1) by (nonlinear_arith);
    }
}

/// An iterate that has not escaped lies strictly within 2 of the origin on
/// both axes.
proof fn lemma_bounded_iterate(x: int, y: int)
    requires
        !escaped((x, y)),
    ensures
        -2 * scale() < x < 2 * scale(),
        -2 * scale() < y < 2 * scale(),
{
    assert(-8589934592 < x < 8589934592 && -8589934592 < y < 8589934592) by (nonlinear_arith)
        requires
            x * x + y * y < 4 * 4294967296 * 4294967296,
    ;
}

/// The iterate that follows `(x, y)` in the orbit of `(p, q)`.
fn next_iterate(x: i64, y: i64, p: i64, q: i64) -> (r: (i128, i128))
    requires
        !escaped((x as int, y as int)),
    ensures
        (r.0 as int, r.1 as int) == step((x as int, y as int), (p as int, q as int)),
        -0x8000_0010_0000_0000_0000 < r.0 < 0x8000_0010_0000_0000_0000,
        -0x8000_0010_0000_0000_0000 < r.1 < 0x8000_0010_0000_0000_0000,
{
    proof {
        lemma_bounded_iterate(x as int, y as int);
    }
    let xw: i128 = x as i128;
    let yw: i128 = y as i128;
    assert(0 <= xw * xw < 0x4_0000_0000_0000_0000 && 0 <= yw * yw < 0x4_0000_0000_0000_0000
        && -0x8_0000_0000_0000_0000 < (2 * xw) * yw < 0x8_0000_0000_0000_0000) by (nonlinear_arith)
        requires
            -8589934592 < xw < 8589934592,
            -8589934592 < yw < 8589934592,
    ;
    let xx: i128 = (xw * xw) / (ONE as i128);
    let yy: i128 = (yw * yw) / (ONE as i128);
    let xy: i128 = ((2 * xw) * yw) / (ONE as i128);
    proof {
        lemma_trunc_div_between(xw * xw, scale(), 0x4_0000_0000);
        lemma_trunc_div_between(yw * yw, scale(), 0x4_0000_0000);
        if (2 * xw) * yw >= 0 {
            lemma_trunc_div_between((2 * xw) * yw, scale(), 0x8_0000_0000);
        } else {
            lemma_trunc_div_between((2 * xw) * yw, scale(), -0x8_0000_0000);
        }
    }
    (xx - yy + p as i128, xy + q as i128)
}

/// Whether an iterate has escaped.
fn has_escaped(x: i128, y: i128) -> (r: bool)
    ensures
        r == escaped((x as int, y as int)),
{
    let limit: i128 = 2 * (ONE as i128);
    if x >= limit || x <= -limit || y >= limit || y <= -limit {
        assert(x * x + y * y >= 4 * 4294967296 * 4294967296) by (nonlinear_arith)
            requires
                x >= 8589934592 || x <= -8589934592 || y >= 8589934592 || y <= -8589934592,
        ;
        true
    } else {
        assert(0 <= x * x < 0x4_0000_0000_0000_0000 && 0 <= y * y < 0x4_0000_0000_0000_0000)
            by (nonlinear_arith)
            requires
                -8589934592 < x < 8589934592,
                -8589934592 < y < 8589934592,
        ;
        x * x + y * y >= 4 * (ONE as i128) * (ONE as i128)
    }
}

/// Runs the escape-time test on the sample `(p, q)`: the first iteration,
/// among `1..=budget`, at which the orbit has escaped, or `None` when the orbit
/// ran the whole budget without escaping.
pub fn escape_iteration(p: i64, q: i64, budget: u32) -> (r: Option<u32>)
    ensures
        match r {
            Some(k) => escape_time((p as int, q as int), budget as nat) == Some(k as nat),
            None => escape_time((p as int, q as int), budget as nat) is None,
        },
{
    let ghost c: (int, int) = (p as int, q as int);
    let mut x: i64 = 0;
    let mut y: i64 = 0;
    let mut n: u32 = 0;
    assert(!escaped((0, 0))) by (nonlinear_arith);
    while n < budget
        invariant
            n <= budget,
            c == (p as int, q as int),
            (x as int, y as int) == orbit(c, n as nat),
            !escaped((x as int, y as int)),
            escape_time(c, n as nat) is None,
        decreases budget - n,
    {
        let (nx, ny): (i128, i128) = next_iterate(x, y, p, q);
        n = n + 1;
        if has_escaped(nx, ny) {
            proof {
                lemma_budget_monotone(c, n as nat, budget as nat);
            }
            return Some(n);
        }
        proof {
            lemma_bounded_iterate(nx as int, ny as int);
        }
        x = nx as i64;
        y = ny as i64;
    }
    None
}

/// Classifies the sample `(p, q)`: `true` when the orbit ran the whole budget
/// without escaping.
pub fn is_in_set(p: i64, q: i64, budget: u32) -> (r: bool)
    ensures
        r == in_set((p as int, q as int), budget as nat),
{
    escape_iteration(p, q, budget).is_none()
}

} // verus!
