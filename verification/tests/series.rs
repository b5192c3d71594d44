use hplc::fixed::{abs_diff, divide, saturate};
use hplc::series::{
    calculate_derivative, has_increasing_times, is_valid_series, mean_filter, restrict, sanitize,
    TimeRange,
};
use hplc::vector::{Point2D, Vector2};

const UNIT: i64 = 1_000_000;

fn points(rows: &[(i64, i64)]) -> Vec<Point2D> {
    rows.iter().map(|(x, y)| Point2D { x: x * UNIT, y: y * UNIT }).collect()
}

#[test]
fn gradient_is_rise_over_run() {
    let a = Point2D::new(1 * UNIT, 2 * UNIT);
    let b = Point2D::new(3 * UNIT, 7 * UNIT);
    assert_eq!(a.gradient(&b), 2_500_000);
    assert_eq!(b.gradient(&a), 2_500_000);
    assert_eq!(a.x(), UNIT);
    assert_eq!(a.y(), 2 * UNIT);
}

#[test]
fn gradient_rounds_toward_zero() {
    let a = Point2D::new(0, 0);
    let up = Point2D::new(3, 1);
    let down = Point2D::new(3, -1);
    assert_eq!(a.gradient(&up), 333_333);
    assert_eq!(a.gradient(&down), -333_333);
}

#[test]
fn gradient_saturates() {
    let a = Point2D::new(0, i64::MIN);
    let b = Point2D::new(1, i64::MAX);
    assert_eq!(a.gradient(&b), i64::MAX);
    assert_eq!(b.gradient(&a), i64::MAX);
    let c = Point2D::new(1, i64::MIN);
    let d = Point2D::new(0, i64::MAX);
    assert_eq!(d.gradient(&c), i64::MIN);
}

#[test]
fn fixed_point_helpers() {
    assert_eq!(abs_diff(i64::MIN, i64::MAX), u64::MAX as i128);
    assert_eq!(abs_diff(3, -4), 7);
    assert_eq!(saturate(i128::MAX), i64::MAX);
    assert_eq!(saturate(i128::MIN), i64::MIN);
    assert_eq!(saturate(-5), -5);
    assert_eq!(divide(7, 2), 3);
    assert_eq!(divide(-7, 2), -3);
    assert_eq!(divide(7, -2), -3);
    assert_eq!(divide(-7, -2), 3);
    assert_eq!(divide(5, i128::MIN), 0);
}

#[test]
fn sanitize_drops_what_cannot_stand_in_a_series() {
    let raw = vec![
        Point2D { x: 0, y: 0 },
        Point2D { x: 2, y: 1 },
        Point2D { x: 2, y: 5 },
        Point2D { x: 1, y: 7 },
        Point2D { x: 3, y: 1_000_000_000_001 },
        Point2D { x: -1_000_000_000_001, y: 0 },
        Point2D { x: 4, y: -1_000_000_000_000 },
    ];
    assert!(!is_valid_series(&raw));
    let kept = sanitize(&raw);
    assert_eq!(
        kept,
        vec![
            Point2D { x: 0, y: 0 },
            Point2D { x: 2, y: 1 },
            Point2D { x: 4, y: -1_000_000_000_000 },
        ]
    );
    assert!(is_valid_series(&kept));
    assert_eq!(sanitize(&kept), kept);
}

#[test]
fn window_zero_leaves_the_series_as_it_is() {
    let data = points(&[(0, 0), (1, 5), (2, 10), (3, 5), (4, 0)]);
    assert_eq!(mean_filter(&data, 0), data);
}

#[test]
fn mean_filter_is_centred_and_cut_off_at_the_ends() {
    let data = points(&[(0, 0), (1, 3), (2, 6), (3, 9), (4, 30)]);
    let smooth = mean_filter(&data, 1);
    assert_eq!(
        smooth,
        vec![
            Point2D { x: 0, y: 1_500_000 },
            Point2D { x: 1 * UNIT, y: 3 * UNIT },
            Point2D { x: 2 * UNIT, y: 6 * UNIT },
            Point2D { x: 3 * UNIT, y: 15 * UNIT },
            Point2D { x: 4 * UNIT, y: 19_500_000 },
        ]
    );
}

#[test]
fn mean_filter_wider_than_the_series_gives_the_overall_mean() {
    let data = points(&[(0, 1), (1, 2), (2, 6)]);
    let smooth = mean_filter(&data, usize::MAX);
    assert_eq!(smooth, points(&[(0, 3), (1, 3), (2, 3)]));
}

#[test]
fn mean_rounds_toward_zero() {
    let data = vec![Point2D { x: 0, y: -1 }, Point2D { x: 1, y: 0 }, Point2D { x: 2, y: 0 }];
    let smooth = mean_filter(&data, 1);
    assert_eq!(smooth[0].y, 0);
    assert_eq!(smooth[1].y, 0);
}

#[test]
fn mean_filter_of_nothing() {
    let none: Vec<Point2D> = vec![];
    assert_eq!(mean_filter(&none, 5), vec![]);
}

#[test]
fn derivative_is_the_central_difference() {
    let data = points(&[(0, 0), (1, 5), (2, 10), (3, 5), (4, 0), (5, 0)]);
    let first = calculate_derivative(&data);
    assert_eq!(
        first,
        vec![
            Point2D { x: 1 * UNIT, y: 5 * UNIT },
            Point2D { x: 2 * UNIT, y: 0 },
            Point2D { x: 3 * UNIT, y: -5 * UNIT },
            Point2D { x: 4 * UNIT, y: -2_500_000 },
        ]
    );
    let second = calculate_derivative(&first);
    assert_eq!(
        second,
        vec![Point2D { x: 2 * UNIT, y: -5 * UNIT }, Point2D { x: 3 * UNIT, y: -1_250_000 }]
    );
}

#[test]
fn derivative_of_a_short_graph_is_empty() {
    assert_eq!(calculate_derivative(&points(&[])), vec![]);
    assert_eq!(calculate_derivative(&points(&[(0, 1)])), vec![]);
    assert_eq!(calculate_derivative(&points(&[(0, 1), (1, 2)])), vec![]);
    assert_eq!(calculate_derivative(&points(&[(0, 1), (1, 9), (2, 2)])).len(), 1);
}

#[test]
fn derivative_with_uneven_spacing() {
    let data = points(&[(0, 0), (1, 1), (4, 8)]);
    assert_eq!(calculate_derivative(&data), vec![Point2D { x: 1 * UNIT, y: 2 * UNIT }]);
}

#[test]
fn restrict_keeps_start_and_leaves_end_out() {
    let data = points(&[(0, 0), (1, 1), (2, 2), (3, 3), (4, 4)]);
    let range = TimeRange { start: 1 * UNIT, end: 3 * UNIT };
    assert_eq!(restrict(&data, &range), points(&[(1, 1), (2, 2)]));
    assert!(range.contains(1 * UNIT));
    assert!(!range.contains(3 * UNIT));
    let empty = TimeRange { start: 3 * UNIT, end: 1 * UNIT };
    assert_eq!(restrict(&data, &empty), vec![]);
}

#[test]
fn times_must_increase() {
    assert!(has_increasing_times(&points(&[])));
    assert!(has_increasing_times(&points(&[(3, 1)])));
    assert!(has_increasing_times(&points(&[(3, 1), (4, 1), (9, 0)])));
    assert!(!has_increasing_times(&points(&[(3, 1), (3, 2)])));
    assert!(!has_increasing_times(&points(&[(3, 1), (4, 2), (1, 0)])));
    let wide = vec![Point2D { x: i64::MIN, y: i64::MAX }, Point2D { x: i64::MAX, y: i64::MIN }];
    assert!(has_increasing_times(&wide));
    assert!(!is_valid_series(&wide));
}
