use hplc::baseline::calculate_baseline;
use hplc::component::{Peak, PeakKind};
use hplc::segmenter::{calculate_components, is_aligned};
use hplc::series::calculate_derivative;
use hplc::vector::Point2D;

const UNIT: i64 = 1_000_000;

fn points(rows: &[(i64, i64)]) -> Vec<Point2D> {
    rows.iter().map(|(x, y)| Point2D { x: x * UNIT, y: y * UNIT }).collect()
}

fn at(x: i64, y: i64) -> Point2D {
    Point2D { x: x * UNIT, y: y * UNIT }
}

fn segment(data: &Vec<Point2D>, height: i64, inflection: i64) -> Vec<Peak> {
    let baseline = calculate_baseline(data);
    let first = calculate_derivative(data);
    let second = calculate_derivative(&first);
    calculate_components(data, &baseline, &first, &second, height, inflection)
}

#[test]
fn two_peaks_are_found_with_their_areas() {
    let data = points(&[
        (0, 0),
        (1, 5),
        (2, 10),
        (3, 5),
        (4, 0),
        (5, 0),
        (6, 6),
        (7, 12),
        (8, 6),
        (9, 0),
    ]);
    let peaks = segment(&data, 3 * UNIT, i64::MAX);
    assert_eq!(
        peaks,
        vec![
            Peak {
                start: at(0, 0),
                retention_point: at(2, 10),
                end: at(4, 0),
                height: 10 * UNIT,
                area: 20 * UNIT as i128,
                gu: None,
                kind: PeakKind::Apex,
            },
            Peak {
                start: at(4, 0),
                retention_point: at(7, 12),
                end: at(9, 0),
                height: 12 * UNIT,
                area: 24 * UNIT as i128,
                gu: None,
                kind: PeakKind::Apex,
            },
        ]
    );
}

#[test]
fn a_summit_must_exceed_the_height_requirement() {
    let data = points(&[
        (0, 0),
        (1, 5),
        (2, 10),
        (3, 5),
        (4, 0),
        (5, 0),
        (6, 6),
        (7, 12),
        (8, 6),
        (9, 0),
    ]);
    let high = segment(&data, 10 * UNIT, i64::MAX);
    assert_eq!(high.len(), 1);
    assert_eq!(high[0].retention_point, at(7, 12));
    assert_eq!(high[0].start, at(4, 0));
    assert_eq!(high[0].area, 24 * UNIT as i128);
    let higher = segment(&data, 12 * UNIT, i64::MAX);
    assert_eq!(higher, vec![]);
}

#[test]
fn a_low_bump_gives_its_area_to_the_peak_before_it() {
    let data = points(&[
        (0, 0),
        (1, 6),
        (2, 12),
        (3, 6),
        (4, 0),
        (5, 1),
        (6, 2),
        (7, 1),
        (8, 0),
        (9, 0),
        (10, 0),
    ]);
    let peaks = segment(&data, 3 * UNIT, i64::MAX);
    assert_eq!(
        peaks,
        vec![Peak {
            start: at(0, 0),
            retention_point: at(2, 12),
            end: at(8, 0),
            height: 12 * UNIT,
            area: 28 * UNIT as i128,
            gu: None,
            kind: PeakKind::Apex,
        }]
    );
}

#[test]
fn too_few_points_give_no_peaks() {
    assert_eq!(segment(&points(&[]), 0, 0), vec![]);
    assert_eq!(segment(&points(&[(0, 5)]), 0, 0), vec![]);
    assert_eq!(segment(&points(&[(0, 0), (1, 5)]), 0, i64::MAX), vec![]);
    assert_eq!(segment(&points(&[(0, 0), (1, 5), (2, 0)]), 0, i64::MAX), vec![]);
}

#[test]
fn a_peak_that_has_its_summit_is_closed_at_the_end_of_the_trace() {
    let data = points(&[(0, 0), (1, 4), (2, 8), (3, 4), (4, 0)]);
    let peaks = segment(&data, 1 * UNIT, i64::MAX);
    assert_eq!(
        peaks,
        vec![Peak {
            start: at(0, 0),
            retention_point: at(2, 8),
            end: at(4, 0),
            height: 8 * UNIT,
            area: 16 * UNIT as i128,
            gu: None,
            kind: PeakKind::Apex,
        }]
    );
}

#[test]
fn a_shoulder_on_the_falling_flank_closes_the_peak() {
    // The fall stalls between x = 4 and x = 6 and then goes on: the second
    // derivative passes from positive to negative there while the trace
    // still falls.
    let data = points(&[
        (0, 0),
        (1, 10),
        (2, 40),
        (3, 20),
        (4, 15),
        (5, 14),
        (6, 5),
        (7, 1),
        (8, 0),
        (9, 0),
    ]);
    let peaks = segment(&data, 3 * UNIT, 1 * UNIT);
    assert_eq!(
        peaks,
        vec![
            Peak {
                start: at(0, 0),
                retention_point: at(2, 40),
                end: at(5, 14),
                height: 40 * UNIT,
                area: 92 * UNIT as i128,
                gu: None,
                kind: PeakKind::Shoulder,
            },
            Peak {
                start: at(5, 14),
                retention_point: at(5, 14),
                end: at(9, 0),
                height: 14 * UNIT,
                area: 13 * UNIT as i128,
                gu: None,
                kind: PeakKind::Apex,
            },
        ]
    );
    let without = segment(&data, 3 * UNIT, i64::MAX);
    assert_eq!(without.len(), 1);
    assert_eq!(without[0].kind, PeakKind::Apex);
    assert_eq!(without[0].retention_point, at(2, 40));
}

#[test]
fn starting_peak_holds_nothing() {
    let peak = Peak::starting_at(at(3, 4));
    assert_eq!(peak.start, at(3, 4));
    assert_eq!(peak.height, 0);
    assert_eq!(peak.area, 0);
    assert_eq!(peak.kind, PeakKind::Apex);
    assert_eq!(peak.get_retention_location(None), Some(0));
}

#[test]
fn a_baseline_must_be_as_long_as_the_series() {
    let data = points(&[(0, 0), (1, 5)]);
    assert!(is_aligned(&data, &calculate_baseline(&data)));
    assert!(!is_aligned(&data, &points(&[(0, 0)])));
    assert!(!is_aligned(&data, &vec![at(0, 0), Point2D { x: 1, y: i64::MAX }]));
    assert!(is_aligned(&vec![], &vec![]));
}

#[test]
fn a_shoulder_on_the_rising_flank_closes_the_peak() {
    // The climb stalls between x = 2 and x = 4 and then goes on: the second
    // derivative passes from negative to positive there while the trace
    // still rises.
    let data = points(&[
        (0, 0),
        (1, 10),
        (2, 18),
        (3, 20),
        (4, 21),
        (5, 30),
        (6, 50),
        (7, 20),
        (8, 2),
        (9, 0),
        (10, 0),
    ]);
    let peaks = segment(&data, 3 * UNIT, 1 * UNIT);
    assert_eq!(peaks[0].kind, PeakKind::Shoulder);
    assert_eq!(peaks[0].start, at(0, 0));
    assert_eq!(peaks[0].retention_point, peaks[0].end);
    assert_eq!(peaks[0].height, peaks[0].end.y);
    assert_eq!(peaks[1].start, peaks[0].end);
    let without = segment(&data, 3 * UNIT, i64::MAX);
    assert_eq!(without.len(), 1);
    assert_eq!(without[0].retention_point, at(6, 50));
    assert_eq!(without[0].kind, PeakKind::Apex);
}

#[test]
fn a_lower_summit_does_not_take_the_place_of_a_real_one() {
    let data = points(&[(0, 0), (1, 10), (2, 9), (3, 10), (4, 8)]);
    let baseline = calculate_baseline(&data);
    assert_eq!(baseline, points(&[(0, 0), (1, 2), (2, 4), (3, 6), (4, 8)]));
    let peaks = segment(&data, 5 * UNIT, i64::MAX);
    assert_eq!(peaks.len(), 1);
    assert_eq!(peaks[0].retention_point, at(1, 10));
    assert_eq!(peaks[0].height, 8 * UNIT);
    assert_eq!(peaks[0].start, at(0, 0));
    assert_eq!(peaks[0].end, at(4, 8));
    for requirement in [0, 3, 5, 7] {
        for peak in segment(&data, requirement * UNIT, i64::MAX) {
            assert!(peak.height > requirement * UNIT);
        }
    }
    assert_eq!(segment(&data, 8 * UNIT, i64::MAX), vec![]);
}

#[test]
fn each_peak_begins_where_the_one_before_it_ends() {
    let data = points(&[
        (0, 0),
        (1, 10),
        (2, 40),
        (3, 20),
        (4, 15),
        (5, 14),
        (6, 5),
        (7, 1),
        (8, 0),
        (9, 6),
        (10, 12),
        (11, 6),
        (12, 0),
    ]);
    let peaks = segment(&data, 3 * UNIT, 1 * UNIT);
    assert!(peaks.len() >= 3);
    for pair in peaks.windows(2) {
        assert_eq!(pair[0].end, pair[1].start);
    }
    for peak in &peaks {
        if peak.kind == PeakKind::Apex {
            assert!(peak.height > 3 * UNIT);
        }
    }
}
