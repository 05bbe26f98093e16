//! The unit of work: one strip of the view, and its evaluation.
//!
//! The range of a strip is kept exact: it is one of so many equal parts of a
//! range between two coordinates, and only the place of a sample is rounded to
//! a coordinate. So the samples of a strip lie where they would lie if the
//! whole range were sampled at once.

use vstd::prelude::*;
use vstd::arithmetic::div_mod::lemma_fundamental_div_mod_converse;
use crate::fixed::{
    interpolate,
    lemma_lerp_between,
    lemma_lerp_ends,
    lemma_lerp_monotone,
    lemma_lerp_scale,
    lerp,
};
use crate::kernel::{in_set, is_in_set};

verus! {

/// A sample that stayed bounded: its coordinates in the plane.
#[derive(Clone, Copy, Debug, PartialEq, Eq, Structural)]
pub struct SampleResult {
    pub x: i64,
    pub y: i64,
}

/// One of `count` equal parts of the range `[low, high)`: the part number
/// `index`, counted from `low`. Its ends are `low + index * (high - low) /
/// count` and the same for `index + 1`, as exact fractions.
#[derive(Clone, Copy, Debug, PartialEq, Eq, Structural)]
pub struct Segment {
    pub low: i64,
    pub high: i64,
    pub index: u32,
    pub count: u32,
}

/// The result of a computation: the samples that stayed bounded, strip after
/// strip from the left, each strip in its scan order.
pub type ResultSet = Vec<SampleResult>;

/// A strip of the plane with all that its evaluation needs: its range on each
/// axis, the number of sample columns and rows, and the iteration budget of
/// each sample.
#[derive(Clone, Copy, Debug, PartialEq, Eq, Structural)]
pub struct StripDescriptor {
    pub x_range: Segment,
    pub y_range: Segment,
    pub resolution_x: u32,
    pub resolution_y: u32,
    pub iteration_budget: u32,
}

impl Segment {
    /// The ends are in order and the part is one of the parts.
    pub open spec fn wf(&self) -> bool {
        self.low <= self.high && self.index < self.count
    }

    /// Where the part begins, rounded down to a coordinate.
    pub open spec fn start(&self) -> int {
        lerp(self.low as int, self.high as int, self.index as int, self.count as int)
    }

    /// Where the part ends, rounded down to a coordinate.
    pub open spec fn end(&self) -> int {
        lerp(self.low as int, self.high as int, self.index + 1, self.count as int)
    }

    /// The point `step / steps` of the way through the part, rounded down to
    /// a coordinate: `start + step * (end - start) / steps`, with the exact
    /// ends.
    pub open spec fn position(&self, step: int, steps: int) -> int {
        lerp(
            self.low as int,
            self.high as int,
            self.index * steps + step,
            self.count * steps,
        )
    }

    /// The positions of a part begin at its start, end at its end, go upward
    /// and so stay within the part and within the whole range.
    pub proof fn lemma_position_within(&self, step: int, steps: int)
        requires
            self.wf(),
            0 <= step <= steps,
            steps > 0,
        ensures
            self.position(0, steps) == self.start(),
            self.position(steps, steps) == self.end(),
            self.low <= self.start() <= self.position(step, steps) <= self.end() <= self.high,
            step < steps ==> self.position(step, steps) <= self.position(step + 1, steps),
    {
        let low: int = self.low as int;
        let high: int = self.high as int;
        let index: int = self.index as int;
        let count: int = self.count as int;
        lemma_lerp_scale(low, high, index, count, steps);
        lemma_lerp_scale(low, high, index + 1, count, steps);
        assert((index + 1) * steps == index * steps + steps) by (nonlinear_arith);
        assert(0 <= index * steps && 0 < count * steps) by (nonlinear_arith)
            requires
                0 <= index,
                0 < count,
                0 < steps,
        ;
        lemma_lerp_monotone(low, high, index * steps, index * steps + step, count * steps);
        lemma_lerp_monotone(low, high, index * steps + step, index * steps + steps, count * steps);
        if step < steps {
            lemma_lerp_monotone(
                low,
                high,
                index * steps + step,
                index * steps + (step + 1),
                count * steps,
            );
        }
        lemma_lerp_between(low, high, index, count);
        lemma_lerp_between(low, high, index + 1, count);
    }

    /// All of the range `[low, high)` as one part.
    pub fn whole(low: i64, high: i64) -> (r: Segment)
        ensures
            r == (Segment { low, high, index: 0, count: 1 }),
            low <= high ==> r.wf() && r.start() == low && r.end() == high,
    {
        proof {
            lemma_lerp_ends(low as int, high as int, 1);
        }
        Segment { low, high, index: 0, count: 1 }
    }

    /// The point `step / steps` of the way through the part.
    pub fn point(&self, step: u32, steps: u32) -> (r: i64)
        requires
            self.wf(),
            step <= steps,
            steps > 0,
            self.count * steps <= u32::MAX,
        ensures
            r == self.position(step as int, steps as int),
    {
        assert(self.index * steps + step <= self.count * steps) by (nonlinear_arith)
            requires
                self.index < self.count,
                step <= steps,
        ;
        assert(0 < self.count * steps) by (nonlinear_arith)
            requires
                0 < self.count,
                0 < steps,
        ;
        interpolate(self.low, self.high, self.index * steps + step, self.count * steps)
    }
}

impl StripDescriptor {
    /// Both ranges are well formed, and the columns and rows of the ranges
    /// that the strip is part of can be counted in 32 bits.
    pub open spec fn wf(&self) -> bool {
        &&& self.x_range.wf()
        &&& self.y_range.wf()
        &&& self.x_range.count * self.resolution_x <= u32::MAX
        &&& self.y_range.count * self.resolution_y <= u32::MAX
    }

    /// The abscissa of a column: `x_start + col * (x_end - x_start) /
    /// resolution_x`.
    pub open spec fn sample_x(&self, col: int) -> int {
        self.x_range.position(col, self.resolution_x as int)
    }

    /// The ordinate of a row: `y_start + row * (y_end - y_start) /
    /// resolution_y`.
    pub open spec fn sample_y(&self, row: int) -> int {
        self.y_range.position(row, self.resolution_y as int)
    }

    /// The sample at a row and a column.
    pub open spec fn sample(&self, row: int, col: int) -> SampleResult {
        SampleResult { x: self.sample_x(col) as i64, y: self.sample_y(row) as i64 }
    }

    /// Whether the sample at a row and a column is kept: its orbit ran the
    /// strip's budget without escaping.
    pub open spec fn retains(&self, row: int, col: int) -> bool {
        in_set((self.sample_x(col), self.sample_y(row)), self.iteration_budget as nat)
    }

    /// The number of samples of the strip.
    pub open spec fn sample_count(&self) -> nat {
        (self.resolution_x * self.resolution_y) as nat
    }

    /// The samples kept among the first `n` of the scan. The scan goes row by
    /// row from the lower end of the strip upward, and in each row column by
    /// column from the left.
    pub open spec fn scan(&self, n: nat) -> Seq<SampleResult>
        decreases n,
    {
        if n == 0 {
            Seq::empty()
        } else {
            let k: int = n - 1;
            let row: int = k / (self.resolution_x as int);
            let col: int = k % (self.resolution_x as int);
            let before: Seq<SampleResult> = self.scan((n - 1) as nat);
            if self.retains(row, col) {
                before.push(self.sample(row, col))
            } else {
                before
            }
        }
    }

    /// The samples of the strip that are kept, in scan order.
    pub open spec fn points(&self) -> Seq<SampleResult> {
        self.scan(self.sample_count())
    }

    /// Every sample of the strip lies within the strip, so its coordinates are
    /// coordinates.
    pub proof fn lemma_sample_within(&self, row: int, col: int)
        requires
            self.wf(),
            0 <= row < self.resolution_y,
            0 <= col < self.resolution_x,
        ensures
            self.x_range.start() <= self.sample_x(col) <= self.x_range.end(),
            self.y_range.start() <= self.sample_y(row) <= self.y_range.end(),
            self.sample(row, col).x == self.sample_x(col),
            self.sample(row, col).y == self.sample_y(row),
    {
        self.x_range.lemma_position_within(col, self.resolution_x as int);
        self.y_range.lemma_position_within(row, self.resolution_y as int);
    }

    /// No more points are kept than samples were scanned.
    pub proof fn lemma_scan_len(&self, n: nat)
        ensures
            self.scan(n).len() <= n,
        decreases n,
    {
        if n > 0 {
            self.lemma_scan_len((n - 1) as nat);
        }
    }

    /// A point is kept by the first `n` steps of the scan exactly when it is
    /// the sample of one of those steps and that sample is kept.
    pub proof fn lemma_scan_contains(&self, n: nat, pt: SampleResult)
        ensures
            self.scan(n).contains(pt) <==> exists|k: int|
                0 <= k < n && #[trigger] self.retains(
                    k / (self.resolution_x as int),
                    k % (self.resolution_x as int),
                ) && pt == self.sample(
                    k / (self.resolution_x as int),
                    k % (self.resolution_x as int),
                ),
        decreases n,
    {
        let rx: int = self.resolution_x as int;
        if n > 0 {
            let m: nat = (n - 1) as nat;
            self.lemma_scan_contains(m, pt);
            let before: Seq<SampleResult> = self.scan(m);
            let row: int = (m as int) / rx;
            let col: int = (m as int) % rx;
            if self.retains(row, col) {
                let s: SampleResult = self.sample(row, col);
                assert(self.scan(n) == before.push(s));
                assert(before.push(s).contains(pt) <==> (before.contains(pt) || pt == s)) by {
                    if before.contains(pt) {
                        let i: int = choose|i: int| 0 <= i < before.len() && before[i] == pt;
                        assert(before.push(s)[i] == pt);
                    }
                    if pt == s {
                        assert(before.push(s)[before.len() as int] == pt);
                    }
                }
            }
            if self.scan(n).contains(pt) {
                if before.contains(pt) {
                    let k: int = choose|k: int|
                        0 <= k < m && #[trigger] self.retains(k / rx, k % rx) && pt == self.sample(
                            k / rx,
                            k % rx,
                        );
                    assert(0 <= k < n && self.retains(k / rx, k % rx));
                } else {
                    assert(self.retains((m as int) / rx, (m as int) % rx));
                }
            }
        } else {
            assert(self.scan(0).len() == 0);
        }
    }

    /// A point is among the points of the strip exactly when it is the sample
    /// of some row and column of the strip and that sample is kept.
    pub proof fn lemma_points_contains(&self, pt: SampleResult)
        ensures
            self.points().contains(pt) <==> exists|row: int, col: int|
                0 <= row < self.resolution_y && 0 <= col < self.resolution_x
                    && #[trigger] self.retains(row, col) && pt == self.sample(row, col),
    {
        let rx: int = self.resolution_x as int;
        let ry: int = self.resolution_y as int;
        let n: nat = self.sample_count();
        self.lemma_scan_contains(n, pt);
        if self.points().contains(pt) {
            let k: int = choose|k: int|
                0 <= k < n && #[trigger] self.retains(k / rx, k % rx) && pt == self.sample(
                    k / rx,
                    k % rx,
                );
            assert(rx > 0) by (nonlinear_arith)
                requires
                    0 <= k < rx * ry,
                    rx >= 0,
                    ry >= 0,
            ;
            assert(0 <= k / rx < ry && 0 <= k % rx < rx) by (nonlinear_arith)
                requires
                    0 <= k < rx * ry,
                    rx > 0,
            ;
        }
        if exists|row: int, col: int|
            0 <= row < ry && 0 <= col < rx && #[trigger] self.retains(row, col) && pt
                == self.sample(row, col) {
            let (row, col): (int, int) = choose|row: int, col: int|
                0 <= row < ry && 0 <= col < rx && #[trigger] self.retains(row, col) && pt
                    == self.sample(row, col);
            let k: int = row * rx + col;
            lemma_fundamental_div_mod_converse(k, rx, row, col);
            assert(0 <= k < rx * ry) by (nonlinear_arith)
                requires
                    k == row * rx + col,
                    0 <= row < ry,
                    0 <= col < rx,
            ;
            assert(self.retains(k / rx, k % rx));
        }
    }

    /// Whether the strip is well formed.
    pub fn is_well_formed(&self) -> (r: bool)
        ensures
            r == self.wf(),
    {
        let limit: u64 = u32::MAX as u64;
        assert(self.x_range.count * self.resolution_x <= u64::MAX && self.y_range.count
            * self.resolution_y <= u64::MAX) by (nonlinear_arith)
            requires
                self.x_range.count <= 0xffff_ffff,
                self.resolution_x <= 0xffff_ffff,
                self.y_range.count <= 0xffff_ffff,
                self.resolution_y <= 0xffff_ffff,
        ;
        self.x_range.low <= self.x_range.high && self.x_range.index < self.x_range.count
            && self.y_range.low <= self.y_range.high && self.y_range.index < self.y_range.count
            && (self.x_range.count as u64) * (self.resolution_x as u64) <= limit && (
        self.y_range.count as u64) * (self.resolution_y as u64) <= limit
    }

    /// Evaluates the strip: scans its samples row by row and keeps those whose
    /// orbit ran the budget without escaping.
    pub fn evaluate(&self) -> (points: Vec<SampleResult>)
        requires
            self.wf(),
        ensures
            points@ == self.points(),
            points@.len() <= self.resolution_x * self.resolution_y,
    {
        let mut out: Vec<SampleResult> = Vec::new();
        let mut row: u32 = 0;
        assert(0 * self.resolution_x == 0) by (nonlinear_arith);
        while row < self.resolution_y
            invariant
                self.wf(),
                row <= self.resolution_y,
                out@ == self.scan((row * self.resolution_x) as nat),
            decreases self.resolution_y - row,
        {
            let q: i64 = self.y_range.point(row, self.resolution_y);
            let mut col: u32 = 0;
            while col < self.resolution_x
                invariant
                    self.wf(),
                    row < self.resolution_y,
                    col <= self.resolution_x,
                    q == self.sample_y(row as int),
                    out@ == self.scan((row * self.resolution_x + col) as nat),
                decreases self.resolution_x - col,
            {
                let p: i64 = self.x_range.point(col, self.resolution_x);
                let keep: bool = is_in_set(p, q, self.iteration_budget);
                proof {
                    let k: int = row * self.resolution_x + col;
                    assert(0 <= row * self.resolution_x) by (nonlinear_arith);
                    lemma_fundamental_div_mod_converse(
                        k,
                        self.resolution_x as int,
                        row as int,
                        col as int,
                    );
                    assert(self.sample(row as int, col as int) == SampleResult { x: p, y: q });
                    assert(keep == self.retains(row as int, col as int));
                    assert((k + 1) as nat - 1 == k);
                }
                if keep {
                    out.push(SampleResult { x: p, y: q });
                }
                col = col + 1;
            }
            proof {
                assert(row * self.resolution_x + self.resolution_x == (row + 1)
                    * self.resolution_x) by (nonlinear_arith);
            }
            row = row + 1;
        }
        proof {
            assert(self.resolution_y * self.resolution_x == self.resolution_x
                * self.resolution_y) by (nonlinear_arith);
            self.lemma_scan_len(self.sample_count());
        }
        out
    }
}

} // verus!
