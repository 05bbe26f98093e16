//! Cutting a view into vertical strips.

use vstd::prelude::*;
use crate::fixed::{lemma_lerp_between, lemma_lerp_ends, lemma_lerp_monotone, lerp};
use crate::strip::{Segment, StripDescriptor};
use crate::view::{GridSpec, ViewRectangle};

verus! {

/// Where strip `i` begins, and strip `i - 1` ends: `i / workers` of the way
/// from the left edge of the view to the right, rounded down to a coordinate.
pub open spec fn strip_boundary(view: ViewRectangle, workers: int, i: int) -> int {
    lerp(view.x_min(), view.x_max(), i, workers)
}

/// Strip `i` of a view cut into `workers` strips: part `i` of the width of the
/// view, the whole height, `resolution_y / workers` columns and
/// `resolution_y` rows.
pub open spec fn strip_spec(
    view: ViewRectangle,
    grid: GridSpec,
    workers: int,
    budget: u32,
    i: int,
) -> StripDescriptor {
    StripDescriptor {
        x_range: Segment {
            low: view.x_min() as i64,
            high: view.x_max() as i64,
            index: i as u32,
            count: workers as u32,
        },
        y_range: Segment {
            low: view.y_min() as i64,
            high: view.y_max() as i64,
            index: 0,
            count: 1,
        },
        resolution_x: grid.strip_columns(workers) as u32,
        resolution_y: grid.resolution_y,
        iteration_budget: budget,
    }
}

/// The strips tile the view: the first begins at the left edge, each ends
/// where the next begins, the last ends at the right edge, and the boundaries
/// go upward. The strips are equally wide, but for the rounding of each
/// boundary to a coordinate: no width differs from the exact share by a whole
/// raw unit.
pub proof fn lemma_strips_tile(view: ViewRectangle, grid: GridSpec, workers: int, budget: u32, i: int)
    requires
        view.is_valid(),
        view.fits_plane(),
        1 <= workers <= u32::MAX,
        0 <= i < workers,
    ensures
        strip_spec(view, grid, workers, budget, i).wf(),
        strip_spec(view, grid, workers, budget, 0).x_range.start() == view.x_min(),
        strip_spec(view, grid, workers, budget, workers - 1).x_range.end() == view.x_max(),
        strip_spec(view, grid, workers, budget, i).x_range.start() == strip_boundary(
            view,
            workers,
            i,
        ),
        strip_spec(view, grid, workers, budget, i).x_range.end() == strip_boundary(
            view,
            workers,
            i + 1,
        ),
        i + 1 < workers ==> strip_spec(view, grid, workers, budget, i).x_range.end() == strip_spec(
            view,
            grid,
            workers,
            budget,
            i + 1,
        ).x_range.start(),
        view.x_min() <= strip_boundary(view, workers, i) <= strip_boundary(view, workers, i + 1)
            <= view.x_max(),
        (2 * view.half_extent()) / workers <= strip_boundary(view, workers, i + 1)
            - strip_boundary(view, workers, i) <= (2 * view.half_extent()) / workers + 1,
        strip_spec(view, grid, workers, budget, i).y_range.start() == view.y_min(),
        strip_spec(view, grid, workers, budget, i).y_range.end() == view.y_max(),
        strip_spec(view, grid, workers, budget, i).resolution_x == grid.resolution_y as int
            / workers,
        strip_spec(view, grid, workers, budget, i).resolution_y == grid.resolution_y,
        strip_spec(view, grid, workers, budget, i).iteration_budget == budget,
{
    view.lemma_half_extent_range();
    let low: int = view.x_min();
    let high: int = view.x_max();
    let span: int = 2 * view.half_extent();
    lemma_lerp_ends(low, high, workers);
    lemma_lerp_ends(view.y_min(), view.y_max(), 1);
    lemma_lerp_between(low, high, i, workers);
    lemma_lerp_between(low, high, i + 1, workers);
    lemma_lerp_monotone(low, high, i, i + 1, workers);
    let columns: int = (grid.resolution_y as int) / workers;
    assert(0 <= columns && workers * columns <= grid.resolution_y) by (nonlinear_arith)
        requires
            columns == (grid.resolution_y as int) / workers,
            workers >= 1,
    ;
    assert(columns <= grid.resolution_y) by (nonlinear_arith)
        requires
            workers * columns <= grid.resolution_y,
            workers >= 1,
            columns >= 0,
    ;
    assert(1 * grid.resolution_y == grid.resolution_y as int) by (nonlinear_arith);
    assert(span / workers <= ((i + 1) * span) / workers - (i * span) / workers <= span / workers
        + 1) by (nonlinear_arith)
        requires
            span >= 0,
            workers >= 1,
            i >= 0,
    ;
    assert(i * (high - low) == i * span && (i + 1) * (high - low) == (i + 1) * span)
        by (nonlinear_arith)
        requires
            high - low == span,
    ;
    assert(0 <= i * span && 0 <= (i + 1) * span) by (nonlinear_arith)
        requires
            0 <= i,
            0 <= span,
    ;
}

/// Cuts a valid view into `workers` strips, in ascending order from the left
/// edge of the view. Strip `i` is part `i` of the width of the view; each
/// strip carries the whole height of the view, `resolution_y / workers`
/// columns, `resolution_y` rows and the iteration budget.
pub fn partition(view: &ViewRectangle, workers: u32, grid: &GridSpec, budget: u32) -> (strips: Vec<
    StripDescriptor,
>)
    requires
        view.is_valid(),
        view.fits_plane(),
        grid.wf(),
        workers >= 1,
    ensures
        strips@.len() == workers,
        forall|i: int|
            0 <= i < workers ==> #[trigger] strips@[i] == strip_spec(
                *view,
                *grid,
                workers as int,
                budget,
                i,
            ),
        forall|i: int| 0 <= i < workers ==> (#[trigger] strips@[i]).wf(),
{
    let bounds = view.bounds();
    let columns: u32 = grid.columns_per_strip(workers);
    let mut strips: Vec<StripDescriptor> = Vec::new();
    let mut i: u32 = 0;
    while i < workers
        invariant
            i <= workers,
            workers >= 1,
            view.is_valid(),
            view.fits_plane(),
            columns == grid.strip_columns(workers as int),
            bounds.x_min == view.x_min(),
            bounds.x_max == view.x_max(),
            bounds.y_min == view.y_min(),
            bounds.y_max == view.y_max(),
            strips@.len() == i,
            forall|j: int|
                0 <= j < i ==> #[trigger] strips@[j] == strip_spec(
                    *view,
                    *grid,
                    workers as int,
                    budget,
                    j,
                ),
            forall|j: int| 0 <= j < i ==> (#[trigger] strips@[j]).wf(),
        decreases workers - i,
    {
        proof {
            lemma_strips_tile(*view, *grid, workers as int, budget, i as int);
        }
        strips.push(
            StripDescriptor {
                x_range: Segment { low: bounds.x_min, high: bounds.x_max, index: i, count: workers },
                y_range: Segment::whole(bounds.y_min, bounds.y_max),
                resolution_x: columns,
                resolution_y: grid.resolution_y,
                iteration_budget: budget,
            },
        );
        i = i + 1;
    }
    strips
}

} // verus!
