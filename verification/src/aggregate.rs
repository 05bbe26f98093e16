//! Gathering what the strips produced into one result set.
//!
//! Every strip has its own slot, filled once by whoever evaluated the strip.
//! The result set is the concatenation of the slots in the order of the
//! strips, whatever the order in which they were filled. If any strip failed
//! there is no result set at all.

use vstd::prelude::*;
use crate::error::GenerateError;
use crate::strip::{ResultSet, SampleResult};

verus! {

/// What became of the evaluation of one strip.
#[derive(Debug)]
pub enum StripOutcome {
    /// The strip was evaluated, and these are its points.
    Completed(Vec<SampleResult>),
    /// The evaluation ended abnormally.
    Failed,
}

/// The lists of `parts` one after another, in the order of `parts`.
pub open spec fn concat(parts: Seq<Seq<SampleResult>>) -> Seq<SampleResult>
    decreases parts.len(),
{
    if parts.len() == 0 {
        Seq::empty()
    } else {
        concat(parts.drop_last()) + parts.last()
    }
}

/// The sum of the lengths of the lists of `parts`.
pub open spec fn total_len(parts: Seq<Seq<SampleResult>>) -> nat
    decreases parts.len(),
{
    if parts.len() == 0 {
        0
    } else {
        total_len(parts.drop_last()) + parts.last().len()
    }
}

/// The points of an outcome; a failed strip has none.
pub open spec fn outcome_points(outcome: StripOutcome) -> Seq<SampleResult> {
    match outcome {
        StripOutcome::Completed(points) => points@,
        StripOutcome::Failed => Seq::empty(),
    }
}

/// The points of each outcome, in the order of the outcomes.
pub open spec fn outcome_parts(outcomes: Seq<StripOutcome>) -> Seq<Seq<SampleResult>> {
    Seq::new(outcomes.len(), |i: int| outcome_points(outcomes[i]))
}

/// Whether every strip was evaluated.
pub open spec fn all_completed(outcomes: Seq<StripOutcome>) -> bool {
    forall|i: int| 0 <= i < outcomes.len() ==> #[trigger] outcomes[i] is Completed
}

/// The length of a concatenation is the sum of the lengths of its parts.
pub proof fn lemma_concat_len(parts: Seq<Seq<SampleResult>>)
    ensures
        concat(parts).len() == total_len(parts),
    decreases parts.len(),
{
    if parts.len() > 0 {
        lemma_concat_len(parts.drop_last());
    }
}

/// A concatenation holds each part whole and in its own order, at the offset
/// given by the lengths of the parts before it.
pub proof fn lemma_concat_index(parts: Seq<Seq<SampleResult>>, i: int, j: int)
    requires
        0 <= i < parts.len(),
        0 <= j < parts[i].len(),
    ensures
        total_len(parts.take(i)) + j < concat(parts).len(),
        concat(parts)[total_len(parts.take(i)) + j] == parts[i][j],
    decreases parts.len(),
{
    let front: Seq<Seq<SampleResult>> = parts.drop_last();
    lemma_concat_len(front);
    lemma_concat_len(parts);
    if i == parts.len() - 1 {
        assert(parts.take(i) == front);
    } else {
        lemma_concat_index(front, i, j);
        assert(front.take(i) == parts.take(i));
    }
}

/// A point is in a concatenation exactly when it is in one of the parts.
pub proof fn lemma_concat_contains(parts: Seq<Seq<SampleResult>>, pt: SampleResult)
    ensures
        concat(parts).contains(pt) <==> exists|i: int|
            0 <= i < parts.len() && (#[trigger] parts[i]).contains(pt),
    decreases parts.len(),
{
    if parts.len() > 0 {
        let front: Seq<Seq<SampleResult>> = parts.drop_last();
        let last: Seq<SampleResult> = parts.last();
        lemma_concat_contains(front, pt);
        let whole: Seq<SampleResult> = concat(front) + last;
        if concat(front).contains(pt) {
            let k: int = choose|k: int| 0 <= k < concat(front).len() && concat(front)[k] == pt;
            assert(whole[k] == pt);
            let i: int = choose|i: int| 0 <= i < front.len() && (#[trigger] front[i]).contains(pt);
            assert(parts[i] == front[i]);
        }
        if last.contains(pt) {
            let k: int = choose|k: int| 0 <= k < last.len() && last[k] == pt;
            assert(whole[concat(front).len() + k] == pt);
            assert(parts[parts.len() - 1].contains(pt));
        }
        if whole.contains(pt) {
            let k: int = choose|k: int| 0 <= k < whole.len() && whole[k] == pt;
            if k < concat(front).len() {
                assert(concat(front)[k] == pt);
            } else {
                assert(last[k - concat(front).len()] == pt);
            }
        }
        if exists|i: int| 0 <= i < parts.len() && (#[trigger] parts[i]).contains(pt) {
            let i: int = choose|i: int| 0 <= i < parts.len() && (#[trigger] parts[i]).contains(pt);
            if i < front.len() {
                assert(front[i] == parts[i]);
            } else {
                assert(last == parts[i]);
            }
        }
    } else {
        assert(concat(parts).len() == 0);
    }
}

/// No concatenation is longer than the number of parts times a bound on the
/// length of each.
pub proof fn lemma_concat_len_bound(parts: Seq<Seq<SampleResult>>, bound: nat)
    requires
        forall|i: int| 0 <= i < parts.len() ==> (#[trigger] parts[i]).len() <= bound,
    ensures
        concat(parts).len() <= parts.len() * bound,
    decreases parts.len(),
{
    if parts.len() > 0 {
        let front: Seq<Seq<SampleResult>> = parts.drop_last();
        assert forall|i: int| 0 <= i < front.len() implies (#[trigger] front[i]).len() <= bound by {
            assert(front[i] == parts[i]);
        }
        lemma_concat_len_bound(front, bound);
        assert(parts[parts.len() - 1].len() <= bound);
        assert(front.len() * bound + bound == parts.len() * bound) by (nonlinear_arith)
            requires
                front.len() + 1 == parts.len(),
        ;
    } else {
        assert(0 * bound == 0) by (nonlinear_arith);
    }
}

/// Gathers the outcomes of all strips, given in the order of the strips. When
/// every strip was evaluated the result is the concatenation of their points
/// in that order; when any failed, the whole computation has failed and no
/// point is returned.
pub fn aggregate(outcomes: &Vec<StripOutcome>) -> (r: Result<ResultSet, GenerateError>)
    ensures
        all_completed(outcomes@) ==> r is Ok && r->Ok_0@ == concat(outcome_parts(outcomes@)),
        !all_completed(outcomes@) ==> r is Err && r->Err_0 == GenerateError::WorkerFailure,
{
    let ghost parts: Seq<Seq<SampleResult>> = outcome_parts(outcomes@);
    let mut gathered: Vec<SampleResult> = Vec::new();
    let mut i: usize = 0;
    assert(parts.take(0).len() == 0);
    while i < outcomes.len()
        invariant
            i <= outcomes.len(),
            parts == outcome_parts(outcomes@),
            forall|j: int| 0 <= j < i ==> #[trigger] outcomes@[j] is Completed,
            gathered@ == concat(parts.take(i as int)),
        decreases outcomes.len() - i,
    {
        match &outcomes[i] {
            StripOutcome::Failed => {
                assert(!(outcomes@[i as int] is Completed));
                return Err(GenerateError::WorkerFailure);
            },
            StripOutcome::Completed(points) => {
                let mut j: usize = 0;
                assert(points@ == parts[i as int]);
                assert(points@.take(0) == Seq::<SampleResult>::empty());
                while j < points.len()
                    invariant
                        j <= points.len(),
                        gathered@ == concat(parts.take(i as int)) + points@.take(j as int),
                    decreases points.len() - j,
                {
                    gathered.push(points[j]);
                    assert(points@.take(j + 1) == points@.take(j as int).push(points@[j as int]));
                    j = j + 1;
                }
                assert(points@.take(j as int) == points@);
                assert(parts.take(i + 1).drop_last() == parts.take(i as int));
                assert(parts.take(i + 1).last() == points@);
            },
        }
        i = i + 1;
    }
    assert(parts.take(i as int) == parts);
    Ok(gathered)
}

} // verus!
