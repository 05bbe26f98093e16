use mandelbrot::aggregate::{aggregate, StripOutcome};
use mandelbrot::error::GenerateError;
use mandelbrot::fixed::ONE;
use mandelbrot::partition::partition;
use mandelbrot::strip::{SampleResult, Segment, StripDescriptor};
use mandelbrot::view::{GridSpec, ViewRectangle};

fn pt(x: i64, y: i64) -> SampleResult {
    SampleResult { x, y }
}

#[test]
fn whole_segment_is_one_part_of_one() {
    let s = Segment::whole(-5, 9);
    assert_eq!(s, Segment { low: -5, high: 9, index: 0, count: 1 });
    assert_eq!(s.point(0, 1), -5);
    assert_eq!(s.point(1, 1), 9);
    assert_eq!(s.point(1, 2), 2);
}

#[test]
fn segment_points_round_once() {
    // The second of three parts of [-1, 1), sampled in two steps.
    let s = Segment { low: -ONE, high: ONE, index: 1, count: 3 };
    assert_eq!(s.point(0, 1), -1431655766);
    assert_eq!(s.point(1, 1), 1431655765);
    assert_eq!(s.point(0, 2), -1431655766);
    assert_eq!(s.point(1, 2), 0);
    assert_eq!(s.point(2, 2), 1431655765);
    // Interpolating between the rounded ends, 3 and 6, would give 4.
    let t = Segment { low: 0, high: 10, index: 1, count: 3 };
    assert_eq!((t.point(0, 1), t.point(1, 1)), (3, 6));
    assert_eq!(t.point(1, 2), 5);
    assert_eq!(t.point(3, 4), 5);
}

#[test]
fn partition_cuts_the_width_into_equal_parts() {
    let view = ViewRectangle { center_x: 0, center_y: 0, zoom: ONE };
    let grid = GridSpec { resolution_x: 10, resolution_y: 10 };
    let strips = partition(&view, 3, &grid, 7);
    assert_eq!(strips.len(), 3);
    for (i, strip) in strips.iter().enumerate() {
        assert_eq!(
            *strip,
            StripDescriptor {
                x_range: Segment { low: -ONE, high: ONE, index: i as u32, count: 3 },
                y_range: Segment { low: -ONE, high: ONE, index: 0, count: 1 },
                resolution_x: 3,
                resolution_y: 10,
                iteration_budget: 7,
            }
        );
        assert!(strip.is_well_formed());
    }
    let edges: Vec<i64> = strips.iter().map(|s| s.x_range.point(0, 1)).collect();
    assert_eq!(edges, vec![-4294967296, -1431655766, 1431655765]);
    assert_eq!(strips[2].x_range.point(1, 1), 4294967296);
}

#[test]
fn strips_tile_the_view_in_ascending_order() {
    let view = ViewRectangle { center_x: 123456789, center_y: -ONE, zoom: 3 * ONE };
    let grid = GridSpec { resolution_x: 50, resolution_y: 50 };
    let strips = partition(&view, 7, &grid, 1);
    let expected: [i64; 8] = [
        -1308198976,
        -899154472,
        -490109968,
        -81065464,
        327979041,
        737023545,
        1146068049,
        1555112554,
    ];
    let bounds = view.bounds();
    assert_eq!(strips.len(), 7);
    assert_eq!(strips[0].x_range.point(0, 1), bounds.x_min);
    assert_eq!(strips[6].x_range.point(1, 1), bounds.x_max);
    for i in 0..7 {
        let start = strips[i].x_range.point(0, 1);
        let end = strips[i].x_range.point(1, 1);
        assert_eq!(start, expected[i]);
        assert_eq!(end, expected[i + 1]);
        assert!(start < end);
        let width = end - start;
        assert!(width == 409044504 || width == 409044505);
        assert_eq!(strips[i].y_range.point(0, 1), bounds.y_min);
        assert_eq!(strips[i].y_range.point(1, 1), bounds.y_max);
        assert_eq!(strips[i].resolution_x, 7);
        assert_eq!(strips[i].resolution_y, 50);
        assert_eq!(strips[i].iteration_budget, 1);
    }
}

#[test]
fn more_strips_than_rows_leave_no_column() {
    let view = ViewRectangle { center_x: 0, center_y: 0, zoom: ONE };
    let grid = GridSpec { resolution_x: 3, resolution_y: 3 };
    let strips = partition(&view, 5, &grid, 10);
    assert_eq!(strips.len(), 5);
    for strip in &strips {
        assert_eq!(strip.resolution_x, 0);
        assert!(strip.evaluate().is_empty());
    }
}

#[test]
fn evaluate_scans_row_by_row() {
    let strip = StripDescriptor {
        x_range: Segment { low: -ONE, high: ONE, index: 0, count: 2 },
        y_range: Segment::whole(-ONE, ONE),
        resolution_x: 2,
        resolution_y: 4,
        iteration_budget: 30,
    };
    let h = ONE / 2;
    assert_eq!(strip.evaluate(), vec![pt(-h, -h), pt(-ONE, 0), pt(-h, 0), pt(-h, h)]);
    let right = StripDescriptor { x_range: Segment { index: 1, ..strip.x_range }, ..strip };
    assert_eq!(right.evaluate(), vec![pt(0, -ONE), pt(0, -h), pt(0, 0), pt(0, h)]);
}

#[test]
fn evaluate_keeps_every_sample_without_a_budget() {
    let strip = StripDescriptor {
        x_range: Segment::whole(0, 30),
        y_range: Segment::whole(100, 102),
        resolution_x: 3,
        resolution_y: 2,
        iteration_budget: 0,
    };
    assert_eq!(
        strip.evaluate(),
        vec![pt(0, 100), pt(10, 100), pt(20, 100), pt(0, 101), pt(10, 101), pt(20, 101)]
    );
}

#[test]
fn evaluate_drops_what_escapes() {
    // Far from the set every sample escapes at the first iteration.
    let strip = StripDescriptor {
        x_range: Segment::whole(3 * ONE, 4 * ONE),
        y_range: Segment::whole(3 * ONE, 4 * ONE),
        resolution_x: 5,
        resolution_y: 5,
        iteration_budget: 1,
    };
    assert!(strip.evaluate().is_empty());
}

#[test]
fn a_strip_is_well_formed_when_its_ranges_are() {
    let good = StripDescriptor {
        x_range: Segment { low: -1, high: 1, index: 1, count: 2 },
        y_range: Segment::whole(0, 0),
        resolution_x: u32::MAX / 2,
        resolution_y: u32::MAX,
        iteration_budget: 0,
    };
    assert!(good.is_well_formed());
    assert!(!StripDescriptor { x_range: Segment { index: 2, ..good.x_range }, ..good }
        .is_well_formed());
    assert!(!StripDescriptor { x_range: Segment { low: 2, ..good.x_range }, ..good }
        .is_well_formed());
    assert!(!StripDescriptor { y_range: Segment { count: 0, ..good.y_range }, ..good }
        .is_well_formed());
    assert!(!StripDescriptor { resolution_x: u32::MAX / 2 + 1, ..good }.is_well_formed());
    assert!(!StripDescriptor { y_range: Segment { count: 2, ..good.y_range }, ..good }
        .is_well_formed());
}

#[test]
fn aggregate_concatenates_in_strip_order() {
    let outcomes = vec![
        StripOutcome::Completed(vec![pt(5, 5), pt(1, 1)]),
        StripOutcome::Completed(vec![]),
        StripOutcome::Completed(vec![pt(3, 3)]),
        StripOutcome::Completed(vec![pt(0, 9), pt(5, 5)]),
    ];
    assert_eq!(
        aggregate(&outcomes),
        Ok(vec![pt(5, 5), pt(1, 1), pt(3, 3), pt(0, 9), pt(5, 5)])
    );
}

#[test]
fn aggregate_of_nothing_is_empty() {
    assert_eq!(aggregate(&vec![]), Ok(vec![]));
    assert_eq!(aggregate(&vec![StripOutcome::Completed(vec![])]), Ok(vec![]));
}

#[test]
fn one_failed_strip_fails_the_whole() {
    let first = vec![
        StripOutcome::Failed,
        StripOutcome::Completed(vec![pt(1, 1)]),
    ];
    assert_eq!(aggregate(&first), Err(GenerateError::WorkerFailure));
    let last = vec![
        StripOutcome::Completed(vec![pt(1, 1)]),
        StripOutcome::Completed(vec![pt(2, 2)]),
        StripOutcome::Failed,
    ];
    assert_eq!(aggregate(&last), Err(GenerateError::WorkerFailure));
    assert_eq!(aggregate(&vec![StripOutcome::Failed]), Err(GenerateError::WorkerFailure));
}
