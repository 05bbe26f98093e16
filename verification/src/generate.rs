//! The whole computation: from a view and a grid to the result set.

use vstd::prelude::*;
use crate::aggregate::{
    aggregate,
    all_completed,
    concat,
    lemma_concat_len_bound,
    outcome_parts,
    StripOutcome,
};
use crate::error::GenerateError;
use crate::partition::{lemma_strips_tile, partition, strip_spec};
use crate::strip::{ResultSet, SampleResult};
use crate::view::{GridSpec, ViewRectangle};

verus! {

/// The points of each strip of a view, in the order of the strips.
pub open spec fn strip_results(
    view: ViewRectangle,
    grid: GridSpec,
    workers: int,
    budget: u32,
) -> Seq<Seq<SampleResult>> {
    Seq::new(workers as nat, |i: int| strip_spec(view, grid, workers, budget, i).points())
}

/// The result set of a valid view: the points of its strips, strip after
/// strip from the left, each strip in its scan order.
pub open spec fn result_set(
    view: ViewRectangle,
    grid: GridSpec,
    workers: int,
    budget: u32,
) -> Seq<SampleResult> {
    concat(strip_results(view, grid, workers, budget))
}

/// What a computation returns: the result set of a valid view, and the error
/// `InvalidView` for a view whose zoom factor is not positive.
pub open spec fn generate_outcome(
    view: ViewRectangle,
    grid: GridSpec,
    workers: int,
    budget: u32,
) -> Result<Seq<SampleResult>, GenerateError> {
    if view.is_valid() {
        Ok(result_set(view, grid, workers, budget))
    } else {
        Err(GenerateError::InvalidView)
    }
}

/// A returned value with its list of points taken as a sequence.
pub open spec fn outcome_view(r: Result<ResultSet, GenerateError>) -> Result<
    Seq<SampleResult>,
    GenerateError,
> {
    match r {
        Ok(points) => Ok(points@),
        Err(e) => Err(e),
    }
}

/// A result set holds no more points than the view has samples: the sampled
/// columns times the rows.
pub proof fn lemma_result_len(view: ViewRectangle, grid: GridSpec, workers: int, budget: u32)
    requires
        view.is_valid(),
        view.fits_plane(),
        1 <= workers <= u32::MAX,
    ensures
        result_set(view, grid, workers, budget).len() <= grid.sampled_columns(workers)
            * grid.resolution_y,
{
    let parts: Seq<Seq<SampleResult>> = strip_results(view, grid, workers, budget);
    let columns: int = grid.strip_columns(workers);
    let bound: nat = (columns * grid.resolution_y) as nat;
    assert(0 <= columns) by (nonlinear_arith)
        requires
            columns == (grid.resolution_y as int) / workers,
            workers >= 1,
    ;
    assert(0 <= columns * grid.resolution_y) by (nonlinear_arith)
        requires
            0 <= columns,
    ;
    assert forall|i: int| 0 <= i < parts.len() implies (#[trigger] parts[i]).len() <= bound by {
        let strip = strip_spec(view, grid, workers, budget, i);
        lemma_strips_tile(view, grid, workers, budget, i);
        strip.lemma_scan_len(strip.sample_count());
    }
    lemma_concat_len_bound(parts, bound);
    assert(parts.len() * bound == (workers * columns) * grid.resolution_y) by (nonlinear_arith)
        requires
            parts.len() == workers,
            bound == columns * grid.resolution_y,
    ;
}

/// Gathering the points that the strips of a view evaluate to gives the
/// result set of the view, whoever evaluated each strip and in whatever order
/// the evaluations ended.
pub proof fn lemma_gathering_gives_result_set(
    view: ViewRectangle,
    grid: GridSpec,
    workers: int,
    budget: u32,
    outcomes: Seq<StripOutcome>,
)
    requires
        workers >= 0,
        outcomes.len() == workers,
        forall|i: int|
            0 <= i < workers ==> (#[trigger] outcomes[i]) is Completed && outcomes[i]->Completed_0@
                == strip_spec(view, grid, workers, budget, i).points(),
    ensures
        all_completed(outcomes),
        concat(outcome_parts(outcomes)) == result_set(view, grid, workers, budget),
{
    assert(outcome_parts(outcomes) =~= strip_results(view, grid, workers, budget));
}

/// Computes the result set of a view with a given iteration budget: cuts the
/// view into `workers` strips, evaluates every strip and gathers the points,
/// strip after strip. A view whose zoom factor is not positive is rejected
/// before any strip is made.
pub fn generate_with_budget(
    view: &ViewRectangle,
    grid: &GridSpec,
    workers: u32,
    iteration_budget: u32,
) -> (r: Result<ResultSet, GenerateError>)
    requires
        view.fits_plane(),
        grid.wf(),
        workers >= 1,
    ensures
        outcome_view(r) == generate_outcome(*view, *grid, workers as int, iteration_budget),
        r is Ok ==> r->Ok_0@.len() <= grid.sampled_columns(workers as int) * grid.resolution_y,
{
    if view.zoom <= 0 {
        return Err(GenerateError::InvalidView);
    }
    let strips = partition(view, workers, grid, iteration_budget);
    let mut outcomes: Vec<StripOutcome> = Vec::new();
    let mut i: usize = 0;
    while i < strips.len()
        invariant
            i <= strips.len(),
            strips@.len() == workers,
            outcomes@.len() == i,
            forall|j: int|
                0 <= j < workers ==> #[trigger] strips@[j] == strip_spec(
                    *view,
                    *grid,
                    workers as int,
                    iteration_budget,
                    j,
                ),
            forall|j: int| 0 <= j < workers ==> (#[trigger] strips@[j]).wf(),
            forall|j: int|
                0 <= j < i ==> (#[trigger] outcomes@[j]) is Completed
                    && outcomes@[j]->Completed_0@ == strip_spec(
                    *view,
                    *grid,
                    workers as int,
                    iteration_budget,
                    j,
                ).points(),
        decreases strips.len() - i,
    {
        let points = strips[i].evaluate();
        outcomes.push(StripOutcome::Completed(points));
        i = i + 1;
    }
    proof {
        lemma_gathering_gives_result_set(
            *view,
            *grid,
            workers as int,
            iteration_budget,
            outcomes@,
        );
        lemma_result_len(*view, *grid, workers as int, iteration_budget);
    }
    aggregate(&outcomes)
}

/// Computes the result set of a view. The iteration budget is what
/// `iteration_policy` returns for the zoom factor of the view; the policy is
/// asked once, and only for a valid view.
pub fn generate<F: Fn(i64) -> u32>(
    view: &ViewRectangle,
    grid: &GridSpec,
    workers: u32,
    iteration_policy: F,
) -> (r: Result<ResultSet, GenerateError>)
    requires
        view.fits_plane(),
        grid.wf(),
        workers >= 1,
        view.is_valid() ==> iteration_policy.requires((view.zoom,)),
    ensures
        !view.is_valid() ==> r is Err && r->Err_0 == GenerateError::InvalidView,
        view.is_valid() ==> exists|budget: u32|
            #[trigger] iteration_policy.ensures((view.zoom,), budget) && outcome_view(r)
                == generate_outcome(*view, *grid, workers as int, budget),
        r is Ok ==> r->Ok_0@.len() <= grid.sampled_columns(workers as int) * grid.resolution_y,
{
    if view.zoom <= 0 {
        return Err(GenerateError::InvalidView);
    }
    let budget: u32 = iteration_policy(view.zoom);
    generate_with_budget(view, grid, workers, budget)
}

} // verus!
