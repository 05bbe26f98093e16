use mandelbrot::aggregate::{aggregate, StripOutcome};
use mandelbrot::budget::zoom_adjusted_budget;
use mandelbrot::error::GenerateError;
use mandelbrot::fixed::ONE;
use mandelbrot::generate::{generate, generate_with_budget};
use mandelbrot::partition::partition;
use mandelbrot::strip::SampleResult;
use mandelbrot::view::{GridSpec, ViewRectangle};

fn unit_view() -> ViewRectangle {
    ViewRectangle { center_x: 0, center_y: 0, zoom: ONE }
}

fn square(n: u32) -> GridSpec {
    GridSpec { resolution_x: n, resolution_y: n }
}

fn points(raw: &[(i64, i64)]) -> Vec<SampleResult> {
    raw.iter().map(|&(x, y)| SampleResult { x, y }).collect()
}

fn sorted(mut v: Vec<SampleResult>) -> Vec<(i64, i64)> {
    let mut raw: Vec<(i64, i64)> = v.drain(..).map(|p| (p.x, p.y)).collect();
    raw.sort();
    raw
}

#[test]
fn unit_view_at_full_resolution() {
    let result = generate(&unit_view(), &square(100), 4, |_zoom| 1000).unwrap();
    assert_eq!(result.len(), 3486);
    assert!(result.contains(&SampleResult { x: 0, y: 0 }));
    assert_eq!(result[2959], SampleResult { x: 0, y: 0 });
    for (x, y) in [(-ONE, -ONE), (ONE, ONE), (-ONE, ONE), (ONE, -ONE)] {
        assert!(!result.contains(&SampleResult { x, y }));
    }
    assert_eq!(result[0], SampleResult { x: -2319282340, y: -2576980378 });
    assert_eq!(result[3485], SampleResult { x: 515396075, y: 2662879723 });
}

#[test]
fn a_small_view_point_by_point() {
    let h = ONE / 2;
    let result = generate_with_budget(&unit_view(), &square(4), 2, 30);
    assert_eq!(
        result,
        Ok(points(&[
            (-h, -h),
            (-ONE, 0),
            (-h, 0),
            (-h, h),
            (0, -ONE),
            (0, -h),
            (0, 0),
            (0, h),
        ]))
    );
}

#[test]
fn an_off_centre_view_point_by_point() {
    let view = ViewRectangle { center_x: ONE / 2, center_y: -ONE / 4, zoom: 2 * ONE };
    let result = generate_with_budget(&view, &GridSpec { resolution_x: 7, resolution_y: 7 }, 3, 25);
    assert_eq!(
        result,
        Ok(points(&[
            (0, -3221225472),
            (0, -2607658716),
            (0, -1994091959),
            (715827882, -1994091959),
            (0, -1380525203),
            (715827882, -1380525203),
            (0, -766958446),
            (715827882, -766958446),
            (0, -153391690),
            (715827882, -153391690),
            (0, 460175067),
            (715827882, 460175067),
            (1431655765, -1380525203),
            (1431655765, -766958446),
            (1431655765, 460175067),
        ]))
    );
}

#[test]
fn a_view_without_zoom_is_rejected() {
    let grid = square(8);
    for zoom in [0i64, -1, -ONE, i64::MIN] {
        let view = ViewRectangle { center_x: 0, center_y: 0, zoom };
        assert_eq!(generate_with_budget(&view, &grid, 2, 10), Err(GenerateError::InvalidView));
        assert_eq!(generate(&view, &grid, 2, |_zoom| 10), Err(GenerateError::InvalidView));
    }
}

#[test]
fn the_policy_is_not_asked_for_an_invalid_view() {
    let view = ViewRectangle { center_x: 0, center_y: 0, zoom: 0 };
    let asked = std::cell::Cell::new(0u32);
    let policy = |_zoom: i64| {
        asked.set(asked.get() + 1);
        10u32
    };
    assert_eq!(generate(&view, &square(8), 2, &policy), Err(GenerateError::InvalidView));
    assert_eq!(asked.get(), 0);
    assert!(generate(&unit_view(), &square(8), 2, &policy).is_ok());
    assert_eq!(asked.get(), 1);
}

#[test]
fn the_policy_sets_the_budget() {
    let view = ViewRectangle { center_x: -3 * (ONE / 4), center_y: 0, zoom: 8 * ONE };
    let grid = square(16);
    let by_policy = generate(&view, &grid, 4, |zoom| zoom_adjusted_budget(32, zoom));
    assert_eq!(by_policy, generate_with_budget(&view, &grid, 4, 33));
    let fixed = generate(&view, &grid, 4, |_zoom| 5);
    assert_eq!(fixed, generate_with_budget(&view, &grid, 4, 5));
    assert_ne!(fixed, by_policy);
}

#[test]
fn the_policy_is_given_the_zoom() {
    let view = ViewRectangle { center_x: 0, center_y: 0, zoom: 5 * ONE };
    let seen = std::cell::Cell::new(0i64);
    let result = generate(&view, &square(4), 1, |zoom| {
        seen.set(zoom);
        3
    });
    assert!(result.is_ok());
    assert_eq!(seen.get(), 5 * ONE);
}

#[test]
fn no_more_points_than_samples() {
    for (rows, workers) in [(10u32, 1u32), (10, 3), (10, 4), (10, 10), (10, 11), (7, 2), (1, 1)] {
        let grid = GridSpec { resolution_x: rows, resolution_y: rows };
        let result = generate_with_budget(&unit_view(), &grid, workers, 0).unwrap();
        // Without a budget every sample is kept, so the bound is met exactly.
        assert_eq!(result.len() as u32, workers * (rows / workers) * rows);
        let fewer = generate_with_budget(&unit_view(), &grid, workers, 20).unwrap();
        assert!(fewer.len() <= result.len());
    }
}

#[test]
fn the_same_inputs_give_the_same_result() {
    let view = ViewRectangle { center_x: -ONE / 2, center_y: ONE / 8, zoom: 2 * ONE };
    let first = generate_with_budget(&view, &square(40), 5, 200);
    let second = generate_with_budget(&view, &square(40), 5, 200);
    assert!(first.is_ok());
    assert_eq!(first, second);
}

#[test]
fn strips_evaluated_in_any_order_give_the_same_result() {
    let view = ViewRectangle { center_x: -ONE / 2, center_y: 0, zoom: ONE };
    let grid = square(30);
    let strips = partition(&view, 6, &grid, 150);
    let mut slots: Vec<Option<Vec<SampleResult>>> = vec![None; 6];
    for i in [4usize, 0, 5, 2, 1, 3] {
        slots[i] = Some(strips[i].evaluate());
    }
    let outcomes: Vec<StripOutcome> =
        slots.into_iter().map(|s| StripOutcome::Completed(s.unwrap())).collect();
    assert_eq!(aggregate(&outcomes), generate_with_budget(&view, &grid, 6, 150));
}

#[test]
fn the_number_of_strips_does_not_change_the_points() {
    let grid = square(100);
    let one = generate_with_budget(&unit_view(), &grid, 1, 100).unwrap();
    let two = generate_with_budget(&unit_view(), &grid, 2, 100).unwrap();
    let fifty = generate_with_budget(&unit_view(), &grid, 50, 100).unwrap();
    assert_eq!(one.len(), 3554);
    assert_ne!(one, two);
    let reference = sorted(one);
    assert_eq!(sorted(two), reference);
    assert_eq!(sorted(fifty), reference);
}

#[test]
fn the_number_of_strips_does_not_change_the_points_of_an_uneven_view() {
    // Neither the width of the view nor the number of rows is a power of two.
    let view = ViewRectangle { center_x: -ONE / 3, center_y: ONE / 7, zoom: 3 * ONE };
    let grid = square(60);
    let reference = sorted(generate_with_budget(&view, &grid, 1, 80).unwrap());
    for workers in [2u32, 3, 4, 5, 6, 10, 12, 15, 20, 30, 60] {
        assert_eq!(sorted(generate_with_budget(&view, &grid, workers, 80).unwrap()), reference);
    }
}

#[test]
fn strips_that_leave_columns_over_sample_another_lattice() {
    let grid = square(100);
    let all = generate_with_budget(&unit_view(), &grid, 1, 100).unwrap();
    let short = generate_with_budget(&unit_view(), &grid, 3, 100).unwrap();
    assert_eq!(short.len(), 3512);
    assert_ne!(sorted(short), sorted(all));
}

#[test]
fn an_evenly_spaced_view_is_symmetric_in_the_real_axis() {
    let view = unit_view();
    let result = generate_with_budget(&view, &square(64), 4, 200).unwrap();
    assert_eq!(result.len(), 1442);
    let low = view.bounds().y_min;
    let mut on_lowest_row = 0;
    for p in &result {
        if p.y == low {
            on_lowest_row += 1;
        } else {
            assert!(result.contains(&SampleResult { x: p.x, y: -p.y }));
        }
    }
    assert_eq!(on_lowest_row, 1);
}

#[test]
fn uneven_rows_have_no_mirror_image() {
    let result = generate_with_budget(&unit_view(), &square(3), 1, 60);
    assert_eq!(
        result,
        Ok(points(&[
            (-1431655766, -1431655766),
            (1431655765, -1431655766),
            (-1431655766, 1431655765),
            (1431655765, 1431655765),
        ]))
    );
}

#[test]
fn a_larger_budget_only_removes_points() {
    let small = generate_with_budget(&unit_view(), &square(64), 4, 20).unwrap();
    let large = generate_with_budget(&unit_view(), &square(64), 4, 200).unwrap();
    assert_eq!((small.len(), large.len()), (1592, 1442));
    for p in &large {
        assert!(small.contains(p));
    }
}

#[test]
fn the_resolution_along_x_does_not_set_the_columns() {
    let a = generate_with_budget(&unit_view(), &GridSpec { resolution_x: 1, resolution_y: 8 }, 2, 50);
    let b = generate_with_budget(&unit_view(), &GridSpec { resolution_x: 8, resolution_y: 8 }, 2, 50);
    assert_eq!(a, b);
    assert_eq!(a.unwrap().len(), 25);
}
