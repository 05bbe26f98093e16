//! The lattice on which every sample of a view lies.
//!
//! Whatever the number of strips, column `k` of a view lies `k` parts of the
//! way from its left edge to its right, out of as many parts as there are
//! columns in all. So a result set can be described without any mention of
//! strips: it holds the lattice points that are kept.

use vstd::prelude::*;
use crate::aggregate::lemma_concat_contains;
use crate::fixed::{lemma_lerp_between, lerp};
use crate::generate::{result_set, strip_results};
use crate::kernel::in_set;
use crate::partition::{lemma_strips_tile, strip_spec};
use crate::strip::{SampleResult, StripDescriptor};
use crate::view::{GridSpec, ViewRectangle};

verus! {

/// The abscissa of column `k` of a view that is sampled in `columns` columns.
pub open spec fn grid_x(view: ViewRectangle, columns: int, k: int) -> int {
    lerp(view.x_min(), view.x_max(), k, columns)
}

/// The ordinate of a row of a view that is sampled in `rows` rows.
pub open spec fn grid_y(view: ViewRectangle, rows: int, row: int) -> int {
    lerp(view.y_min(), view.y_max(), row, rows)
}

/// The lattice point at column `k` and a row.
pub open spec fn grid_point(
    view: ViewRectangle,
    columns: int,
    rows: int,
    k: int,
    row: int,
) -> SampleResult {
    SampleResult { x: grid_x(view, columns, k) as i64, y: grid_y(view, rows, row) as i64 }
}

/// Whether the lattice point at column `k` and a row is kept under a budget.
pub open spec fn grid_keeps(
    view: ViewRectangle,
    columns: int,
    rows: int,
    budget: u32,
    k: int,
    row: int,
) -> bool {
    in_set((grid_x(view, columns, k), grid_y(view, rows, row)), budget as nat)
}

/// Whether `pt` is a lattice point of the view that is kept under a budget.
pub open spec fn kept_on_grid(
    view: ViewRectangle,
    columns: int,
    rows: int,
    budget: u32,
    pt: SampleResult,
) -> bool {
    exists|k: int, row: int|
        0 <= k < columns && 0 <= row < rows && #[trigger] grid_keeps(
            view,
            columns,
            rows,
            budget,
            k,
            row,
        ) && pt == grid_point(view, columns, rows, k, row)
}

/// Every lattice point of a valid view lies within the view, so its
/// coordinates are coordinates.
pub proof fn lemma_grid_point_in_view(
    view: ViewRectangle,
    columns: int,
    rows: int,
    k: int,
    row: int,
)
    requires
        view.is_valid(),
        view.fits_plane(),
        0 <= k < columns,
        0 <= row < rows,
    ensures
        view.x_min() <= grid_x(view, columns, k) <= view.x_max(),
        view.y_min() <= grid_y(view, rows, row) <= view.y_max(),
        grid_point(view, columns, rows, k, row).x == grid_x(view, columns, k),
        grid_point(view, columns, rows, k, row).y == grid_y(view, rows, row),
{
    view.lemma_half_extent_range();
    lemma_lerp_between(view.x_min(), view.x_max(), k, columns);
    lemma_lerp_between(view.y_min(), view.y_max(), row, rows);
}

/// The sample of strip `i` at a row and a column is the lattice point at that
/// row and at column `i * strip_columns + col` of the view, and it is kept by
/// the strip exactly when the lattice keeps it.
pub proof fn lemma_strip_sample_on_grid(
    view: ViewRectangle,
    grid: GridSpec,
    workers: int,
    budget: u32,
    i: int,
    row: int,
    col: int,
)
    requires
        view.is_valid(),
        view.fits_plane(),
        1 <= workers <= u32::MAX,
        0 <= i < workers,
        0 <= row < grid.resolution_y,
        0 <= col < grid.strip_columns(workers),
    ensures
        0 <= i * grid.strip_columns(workers) + col < grid.sampled_columns(workers),
        strip_spec(view, grid, workers, budget, i).sample(row, col) == grid_point(
            view,
            grid.sampled_columns(workers),
            grid.resolution_y as int,
            i * grid.strip_columns(workers) + col,
            row,
        ),
        strip_spec(view, grid, workers, budget, i).retains(row, col) == grid_keeps(
            view,
            grid.sampled_columns(workers),
            grid.resolution_y as int,
            budget,
            i * grid.strip_columns(workers) + col,
            row,
        ),
{
    let columns: int = grid.strip_columns(workers);
    lemma_strips_tile(view, grid, workers, budget, i);
    assert(0 <= i * columns + col < workers * columns) by (nonlinear_arith)
        requires
            0 <= i < workers,
            0 <= col < columns,
    ;
    assert(0 * grid.resolution_y + row == row && 1 * grid.resolution_y == grid.resolution_y as int)
        by (nonlinear_arith);
}

/// A point is in the result set of a view exactly when it is a lattice point
/// of the view that is kept.
pub proof fn lemma_result_contains(
    view: ViewRectangle,
    grid: GridSpec,
    workers: int,
    budget: u32,
    pt: SampleResult,
)
    requires
        view.is_valid(),
        view.fits_plane(),
        1 <= workers <= u32::MAX,
    ensures
        result_set(view, grid, workers, budget).contains(pt) <==> kept_on_grid(
            view,
            grid.sampled_columns(workers),
            grid.resolution_y as int,
            budget,
            pt,
        ),
{
    let parts: Seq<Seq<SampleResult>> = strip_results(view, grid, workers, budget);
    let columns: int = grid.strip_columns(workers);
    let total: int = grid.sampled_columns(workers);
    let rows: int = grid.resolution_y as int;
    lemma_concat_contains(parts, pt);
    if result_set(view, grid, workers, budget).contains(pt) {
        let i: int = choose|i: int| 0 <= i < parts.len() && (#[trigger] parts[i]).contains(pt);
        let strip: StripDescriptor = strip_spec(view, grid, workers, budget, i);
        lemma_strips_tile(view, grid, workers, budget, i);
        strip.lemma_points_contains(pt);
        let (row, col): (int, int) = choose|row: int, col: int|
            0 <= row < strip.resolution_y && 0 <= col < strip.resolution_x
                && #[trigger] strip.retains(row, col) && pt == strip.sample(row, col);
        lemma_strip_sample_on_grid(view, grid, workers, budget, i, row, col);
        assert(grid_keeps(view, total, rows, budget, i * columns + col, row));
    }
    if kept_on_grid(view, total, rows, budget, pt) {
        let (k, row): (int, int) = choose|k: int, row: int|
            0 <= k < total && 0 <= row < rows && #[trigger] grid_keeps(
                view,
                total,
                rows,
                budget,
                k,
                row,
            ) && pt == grid_point(view, total, rows, k, row);
        assert(columns > 0) by (nonlinear_arith)
            requires
                0 <= k < workers * columns,
                workers >= 1,
        ;
        let i: int = k / columns;
        let col: int = k % columns;
        assert(0 <= i < workers && 0 <= col < columns && k == i * columns + col)
            by (nonlinear_arith)
            requires
                0 <= k < workers * columns,
                columns > 0,
                i == k / columns,
                col == k % columns,
        ;
        let strip: StripDescriptor = strip_spec(view, grid, workers, budget, i);
        lemma_strips_tile(view, grid, workers, budget, i);
        lemma_strip_sample_on_grid(view, grid, workers, budget, i, row, col);
        strip.lemma_points_contains(pt);
        assert(strip.retains(row, col) && pt == strip.sample(row, col));
        assert(parts[i].contains(pt));
    }
}

} // verus!
