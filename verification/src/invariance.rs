//! What does not change a result set, and what changes it in one direction
//! only.

use vstd::prelude::*;
use vstd::arithmetic::div_mod::lemma_fundamental_div_mod;
use crate::fixed::lemma_trunc_div_exact;
use crate::generate::result_set;
use crate::kernel::{lemma_budget_monotone, lemma_escape_time_conjugate};
use crate::lattice::{
    grid_keeps,
    grid_point,
    grid_x,
    grid_y,
    kept_on_grid,
    lemma_grid_point_in_view,
    lemma_result_contains,
};
use crate::strip::SampleResult;
use crate::view::{GridSpec, ViewRectangle};

verus! {

/// Two numbers of strips that sample the same number of columns return the
/// same points, though not in the same order: which points are returned does
/// not depend on how the view was cut.
pub proof fn lemma_worker_count_invariance(
    view: ViewRectangle,
    grid: GridSpec,
    workers_a: int,
    workers_b: int,
    budget: u32,
)
    requires
        view.is_valid(),
        view.fits_plane(),
        1 <= workers_a <= u32::MAX,
        1 <= workers_b <= u32::MAX,
        grid.sampled_columns(workers_a) == grid.sampled_columns(workers_b),
    ensures
        result_set(view, grid, workers_a, budget).to_set() == result_set(
            view,
            grid,
            workers_b,
            budget,
        ).to_set(),
{
    let a: Seq<SampleResult> = result_set(view, grid, workers_a, budget);
    let b: Seq<SampleResult> = result_set(view, grid, workers_b, budget);
    assert forall|pt: SampleResult| a.to_set().contains(pt) <==> b.to_set().contains(pt) by {
        lemma_result_contains(view, grid, workers_a, budget, pt);
        lemma_result_contains(view, grid, workers_b, budget, pt);
    }
    assert(a.to_set() =~= b.to_set());
}

/// A number of strips that divides the number of rows leaves no column out:
/// as many columns are sampled as there are rows.
pub proof fn lemma_even_split_samples_every_column(grid: GridSpec, workers: int)
    requires
        workers >= 1,
        (grid.resolution_y as int) % workers == 0,
    ensures
        grid.sampled_columns(workers) == grid.resolution_y,
{
    lemma_fundamental_div_mod(grid.resolution_y as int, workers);
}

/// A result set is as symmetric in the real axis as its rows are: with a
/// point it holds the mirror image of the point, wherever the mirror image of
/// the point's row is a row of the view too.
pub proof fn lemma_mirror_image_kept(
    view: ViewRectangle,
    grid: GridSpec,
    workers: int,
    budget: u32,
    pt: SampleResult,
    mirror_row: int,
)
    requires
        view.is_valid(),
        view.fits_plane(),
        1 <= workers <= u32::MAX,
        result_set(view, grid, workers, budget).contains(pt),
        0 <= mirror_row < grid.resolution_y,
        grid_y(view, grid.resolution_y as int, mirror_row) == -pt.y,
    ensures
        i64::MIN < pt.y,
        result_set(view, grid, workers, budget).contains(SampleResult { x: pt.x, y: (-pt.y) as i64 }),
{
    let total: int = grid.sampled_columns(workers);
    let rows: int = grid.resolution_y as int;
    lemma_result_contains(view, grid, workers, budget, pt);
    let (k, row): (int, int) = choose|k: int, row: int|
        0 <= k < total && 0 <= row < rows && #[trigger] grid_keeps(
            view,
            total,
            rows,
            budget,
            k,
            row,
        ) && pt == grid_point(view, total, rows, k, row);
    lemma_grid_point_in_view(view, total, rows, k, row);
    lemma_grid_point_in_view(view, total, rows, k, mirror_row);
    lemma_escape_time_conjugate((grid_x(view, total, k), grid_y(view, rows, row)), budget as nat);
    assert(grid_keeps(view, total, rows, budget, k, mirror_row));
    let reflected: SampleResult = SampleResult { x: pt.x, y: (-pt.y) as i64 };
    assert(reflected == grid_point(view, total, rows, k, mirror_row));
    assert(kept_on_grid(view, total, rows, budget, reflected));
    lemma_result_contains(view, grid, workers, budget, reflected);
}

/// The result set of a view centred on the real axis is its own mirror image
/// in that axis, but for the lowest row, whose mirror image is the upper edge
/// and outside the view. This holds where the rows are evenly spaced: the
/// height of the view is a whole multiple of the number of rows.
pub proof fn lemma_mirror_symmetry(
    view: ViewRectangle,
    grid: GridSpec,
    workers: int,
    budget: u32,
    pt: SampleResult,
)
    requires
        view.is_valid(),
        view.fits_plane(),
        1 <= workers <= u32::MAX,
        view.center_y == 0,
        (2 * view.half_extent()) % (grid.resolution_y as int) == 0,
        result_set(view, grid, workers, budget).contains(pt),
        pt.y != view.y_min(),
    ensures
        i64::MIN < pt.y,
        result_set(view, grid, workers, budget).contains(SampleResult { x: pt.x, y: (-pt.y) as i64 }),
{
    let total: int = grid.sampled_columns(workers);
    let rows: int = grid.resolution_y as int;
    let half: int = view.half_extent();
    view.lemma_half_extent_range();
    lemma_result_contains(view, grid, workers, budget, pt);
    let (k, row): (int, int) = choose|k: int, row: int|
        0 <= k < total && 0 <= row < rows && #[trigger] grid_keeps(
            view,
            total,
            rows,
            budget,
            k,
            row,
        ) && pt == grid_point(view, total, rows, k, row);
    lemma_grid_point_in_view(view, total, rows, k, row);
    let step: int = (2 * half) / rows;
    lemma_fundamental_div_mod(2 * half, rows);
    assert(2 * half == step * rows) by (nonlinear_arith)
        requires
            2 * half == rows * step + 0,
    ;
    // The ordinate of a row is a whole number of steps above the lower edge.
    assert(row * (view.y_max() - view.y_min()) == (row * step) * rows) by (nonlinear_arith)
        requires
            view.y_max() - view.y_min() == step * rows,
    ;
    lemma_trunc_div_exact(row * step, rows);
    let y: int = grid_y(view, rows, row);
    assert(y == -half + row * step);
    assert(row >= 1) by {
        if row == 0 {
            assert(0 * step == 0) by (nonlinear_arith);
        }
    }
    let mirror: int = rows - row;
    assert(mirror * (view.y_max() - view.y_min()) == (mirror * step) * rows) by (nonlinear_arith)
        requires
            view.y_max() - view.y_min() == step * rows,
    ;
    lemma_trunc_div_exact(mirror * step, rows);
    assert(mirror * step == 2 * half - row * step) by (nonlinear_arith)
        requires
            mirror == rows - row,
            2 * half == step * rows,
    ;
    assert(grid_y(view, rows, mirror) == -y);
    lemma_mirror_image_kept(view, grid, workers, budget, pt, mirror);
}

/// A larger budget never adds a point: every point returned under a budget
/// is returned under every smaller one.
pub proof fn lemma_result_shrinks_with_budget(
    view: ViewRectangle,
    grid: GridSpec,
    workers: int,
    small: u32,
    large: u32,
)
    requires
        view.is_valid(),
        view.fits_plane(),
        1 <= workers <= u32::MAX,
        small <= large,
    ensures
        result_set(view, grid, workers, large).to_set().subset_of(
            result_set(view, grid, workers, small).to_set(),
        ),
{
    let total: int = grid.sampled_columns(workers);
    let rows: int = grid.resolution_y as int;
    assert forall|pt: SampleResult|
        result_set(view, grid, workers, large).to_set().contains(pt) implies result_set(
        view,
        grid,
        workers,
        small,
    ).to_set().contains(pt) by {
        lemma_result_contains(view, grid, workers, large, pt);
        lemma_result_contains(view, grid, workers, small, pt);
        let (k, row): (int, int) = choose|k: int, row: int|
            0 <= k < total && 0 <= row < rows && #[trigger] grid_keeps(
                view,
                total,
                rows,
                large,
                k,
                row,
            ) && pt == grid_point(view, total, rows, k, row);
        lemma_budget_monotone(
            (grid_x(view, total, k), grid_y(view, rows, row)),
            small as nat,
            large as nat,
        );
        assert(grid_keeps(view, total, rows, small, k, row));
    }
}

} // verus!
