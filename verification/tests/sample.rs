use hplc::chromatography::{
    Chromatography, ComponentFilter, SampleType, DEX_END, DEX_START, MEAN_FILTER_RANGE,
};
use hplc::component::{Component, Peak, PeakKind};
use hplc::reference::Reference;
use hplc::series::TimeRange;
use hplc::spline::{Cubic, Spline, COEFFICIENT_SCALE};
use hplc::vector::Point2D;

const UNIT: i64 = 1_000_000;

fn points(rows: &[(i64, i64)]) -> Vec<Point2D> {
    rows.iter().map(|(x, y)| Point2D { x: x * UNIT, y: y * UNIT }).collect()
}

fn at(x: i64, y: i64) -> Point2D {
    Point2D { x: x * UNIT, y: y * UNIT }
}

fn two_peaks() -> Vec<Point2D> {
    points(&[
        (0, 0),
        (1, 5),
        (2, 10),
        (3, 5),
        (4, 0),
        (5, 0),
        (6, 6),
        (7, 12),
        (8, 6),
        (9, 0),
    ])
}

fn sample_of_two_peaks() -> Chromatography {
    let mut sample = Chromatography::new(&two_peaks());
    sample.set_smoothing_window(0);
    sample.set_height_requirement(&(3 * UNIT));
    sample.set_inflection_requirement(&i64::MAX);
    sample
}

fn named(name: &str, rt: i64) -> Reference {
    Reference::from_row(Some(name.to_string()), Some(rt), None).unwrap()
}

/// Everything that a sample shows.
fn shown(
    sample: &Chromatography,
) -> (Vec<Point2D>, Vec<Point2D>, (i128, i128), Vec<Peak>, Vec<Component>) {
    let all = ComponentFilter { unknown: true, located: true, reference: true };
    (
        sample.get_data(),
        sample.get_baseline(),
        (sample.get_total_area(), sample.get_trace_area()),
        sample.get_unqualified_components(),
        sample.get_components(&all),
    )
}

#[test]
fn total_area_is_that_of_the_peaks() {
    let mut sample = sample_of_two_peaks();
    sample.set_height_requirement(&(11 * UNIT));
    assert_eq!(sample.get_unqualified_components().len(), 1);
    assert_eq!(sample.get_total_area(), 24 * UNIT as i128);
    assert_eq!(sample.get_trace_area(), 44 * UNIT as i128);
    sample.set_height_requirement(&(12 * UNIT));
    assert_eq!(sample.get_total_area(), 0);
    assert_eq!(sample.get_trace_area(), 44 * UNIT as i128);
}

#[test]
fn end_to_end() {
    let sample = sample_of_two_peaks();
    let peaks = sample.get_unqualified_components();
    assert_eq!(peaks.len(), 2);
    assert_eq!(peaks[0].retention_point, at(2, 10));
    assert_eq!(peaks[0].height, 10 * UNIT);
    assert_eq!(peaks[0].area, 20 * UNIT as i128);
    assert_eq!(peaks[1].retention_point, at(7, 12));
    assert_eq!(peaks[1].height, 12 * UNIT);
    assert_eq!(peaks[1].area, 24 * UNIT as i128);
    assert_eq!(sample.get_total_area(), 44 * UNIT as i128);
    assert_eq!(sample.get_trace_area(), 44 * UNIT as i128);
    assert_eq!(sample.get_data(), two_peaks());
    assert_eq!(sample.get_baseline(), points(&[
        (0, 0),
        (1, 0),
        (2, 0),
        (3, 0),
        (4, 0),
        (5, 0),
        (6, 0),
        (7, 0),
        (8, 0),
        (9, 0),
    ]));
    assert_eq!(sample.get_highest_point(), 12 * UNIT);
    let all = ComponentFilter { unknown: true, located: true, reference: true };
    assert_eq!(
        sample.get_components(&all),
        vec![Component::Unknown(peaks[0]), Component::Unknown(peaks[1])]
    );
}

#[test]
fn a_new_sample_smooths_over_eleven_points() {
    assert_eq!(MEAN_FILTER_RANGE, 5);
    let sample = Chromatography::new(&two_peaks());
    let data = sample.get_data();
    assert_eq!(data.len(), 10);
    // Points 0 to 5 are averaged for the first point: 20 / 6.
    assert_eq!(data[0], Point2D { x: 0, y: 3_333_333 });
    // All ten points are averaged for the fifth point: 44 / 10.
    assert_eq!(data[4], Point2D { x: 4 * UNIT, y: 4_400_000 });
    assert_eq!(sample.get_sample_type(), SampleType::Data);
    assert!(!sample.get_include_unknowns());
    assert_eq!(sample.get_data_range(), TimeRange { start: 0, end: 9 * UNIT });
}

#[test]
fn an_empty_sample_shows_nothing() {
    let sample = Chromatography::new(&vec![]);
    assert_eq!(sample.get_data(), vec![]);
    assert_eq!(sample.get_baseline(), vec![]);
    assert_eq!(sample.get_unqualified_components(), vec![]);
    assert_eq!(sample.get_total_area(), 0);
    assert_eq!(sample.get_highest_point(), 0);
    assert_eq!(sample.get_data_range(), TimeRange { start: 0, end: 0 });
    assert_eq!(sample.get_glucose_ladder(), vec![]);
    assert_eq!(sample.get_components(&ComponentFilter::existing_only()), vec![]);
}

#[test]
fn rows_out_of_order_are_dropped() {
    let sample = Chromatography::new(&points(&[(0, 1), (2, 2), (1, 9), (2, 9), (3, 3)]));
    let mut plain = sample;
    plain.set_smoothing_window(0);
    assert_eq!(plain.get_data(), points(&[(0, 1), (2, 2), (3, 3)]));
}

#[test]
fn setting_a_value_again_changes_nothing() {
    let mut sample = sample_of_two_peaks();
    let references = vec![named("A", 2_100_000), named("B", 5 * UNIT)];
    sample.set_lipid_references(references.clone());
    sample.set_retention_time_tolerance(&200_000);
    sample.set_glucose_unit_tolerance(&20_000);
    sample.set_data_range(&TimeRange { start: 0, end: 10 * UNIT });
    let before = shown(&sample);
    assert_eq!(before.4.len(), 3);

    sample.set_smoothing_window(0);
    assert_eq!(shown(&sample), before);
    sample.set_height_requirement(&(3 * UNIT));
    assert_eq!(shown(&sample), before);
    sample.set_inflection_requirement(&i64::MAX);
    assert_eq!(shown(&sample), before);
    sample.set_retention_time_tolerance(&200_000);
    assert_eq!(shown(&sample), before);
    sample.set_glucose_unit_tolerance(&20_000);
    assert_eq!(shown(&sample), before);
    sample.set_data_range(&TimeRange { start: 0, end: 10 * UNIT });
    assert_eq!(shown(&sample), before);
    sample.set_lipid_references(references);
    assert_eq!(shown(&sample), before);
    sample.set_glucose_transformer(&None);
    assert_eq!(shown(&sample), before);
    sample.set_sample_type(&SampleType::Data);
    assert_eq!(shown(&sample), before);
    sample.set_include_unknowns(&false);
    assert_eq!(shown(&sample), before);
    sample.set_include_unknowns(&true);
    assert_eq!(shown(&sample), before);
    assert!(sample.get_include_unknowns());
    sample.set_raw_data(&two_peaks());
    assert_eq!(shown(&sample), before);
}

#[test]
fn every_setting_reaches_what_depends_on_it() {
    let mut sample = sample_of_two_peaks();
    sample.set_height_requirement(&(11 * UNIT));
    assert_eq!(sample.get_unqualified_components().len(), 1);
    sample.set_height_requirement(&(3 * UNIT));
    assert_eq!(sample.get_unqualified_components().len(), 2);

    sample.set_lipid_references(vec![named("A", 2_100_000)]);
    sample.set_retention_time_tolerance(&100_000);
    let all = ComponentFilter { unknown: true, located: true, reference: true };
    assert_eq!(sample.get_components(&all).len(), 2);
    sample.set_retention_time_tolerance(&99_999);
    assert_eq!(sample.get_components(&all).len(), 3);

    sample.set_data_range(&TimeRange { start: 4 * UNIT, end: 10 * UNIT });
    assert_eq!(sample.get_data().len(), 6);
    assert_eq!(sample.get_total_area(), 24 * UNIT as i128);
    assert_eq!(sample.get_data_range(), TimeRange { start: 4 * UNIT, end: 10 * UNIT });

    sample.set_smoothing_window(1);
    assert_eq!(sample.get_data()[0], Point2D { x: 4 * UNIT, y: 1_666_666 });

    sample.set_raw_data(&points(&[(0, 1), (5, 2), (6, 3)]));
    assert_eq!(sample.get_data(), vec![Point2D { x: 5 * UNIT, y: 2 * UNIT }, Point2D { x: 6 * UNIT, y: 2_500_000 }]);
}

#[test]
fn components_are_filtered_by_kind() {
    let mut sample = sample_of_two_peaks();
    sample.set_lipid_references(vec![named("A", 2_100_000), named("B", 5 * UNIT)]);
    sample.set_retention_time_tolerance(&200_000);
    let peaks = sample.get_unqualified_components();
    let all = ComponentFilter { unknown: true, located: true, reference: true };
    assert_eq!(
        sample.get_components(&all),
        vec![
            Component::Located(peaks[0], named("A", 2_100_000)),
            Component::Reference(named("B", 5 * UNIT)),
            Component::Unknown(peaks[1]),
        ]
    );
    assert_eq!(
        sample.get_components(&ComponentFilter::existing_only()),
        vec![Component::Located(peaks[0], named("A", 2_100_000)), Component::Unknown(peaks[1])]
    );
    assert_eq!(
        sample.get_components(&ComponentFilter::expected_only()),
        vec![
            Component::Located(peaks[0], named("A", 2_100_000)),
            Component::Reference(named("B", 5 * UNIT)),
        ]
    );
    let none = ComponentFilter { unknown: false, located: false, reference: false };
    assert_eq!(sample.get_components(&none), vec![]);
}

#[test]
fn a_dextran_sample_is_held_to_the_window_of_the_ladder() {
    assert_eq!((DEX_START, DEX_END), (0, 38_700_000));
    let mut sample = Chromatography::new(&points(&[(-1, 0), (0, 0), (10, 4), (38, 1), (39, 9), (40, 0)]));
    sample.set_smoothing_window(0);
    sample.set_data_range(&TimeRange { start: 10 * UNIT, end: 50 * UNIT });
    assert_eq!(sample.get_data(), points(&[(10, 4), (38, 1), (39, 9), (40, 0)]));
    sample.set_sample_type(&SampleType::Dex);
    assert_eq!(sample.get_sample_type(), SampleType::Dex);
    assert_eq!(sample.get_data(), points(&[(0, 0), (10, 4), (38, 1)]));
    assert_eq!(sample.get_data_range(), TimeRange { start: DEX_START, end: DEX_END });
    sample.set_data_range(&TimeRange { start: 10 * UNIT, end: 50 * UNIT });
    assert_eq!(sample.get_data(), points(&[(0, 0), (10, 4), (38, 1)]));
    assert_eq!(sample.get_data_range(), TimeRange { start: 10 * UNIT, end: 50 * UNIT });
    sample.set_sample_type(&SampleType::Blank);
    assert_eq!(sample.get_data(), points(&[(10, 4), (38, 1), (39, 9), (40, 0)]));
}

#[test]
fn a_ladder_gives_a_curve_that_the_other_samples_use() {
    let mut dex = sample_of_two_peaks();
    dex.set_sample_type(&SampleType::Dex);
    // The second peak towers over the first, so it alone is a step.
    assert_eq!(dex.get_glucose_ladder(), vec![at(7, 2)]);
    assert!(dex.get_glucose_transformer(&vec![]).is_none());

    dex.set_raw_data(&points(&[
        (0, 0),
        (1, 6),
        (2, 12),
        (3, 6),
        (4, 0),
        (5, 0),
        (6, 5),
        (7, 10),
        (8, 5),
        (9, 0),
    ]));
    assert_eq!(dex.get_glucose_ladder(), vec![at(2, 2), at(7, 3)]);
    // One glucose unit for every five units of time: t / 5 + 1.6.
    let line = vec![Cubic::new(0, 0, COEFFICIENT_SCALE / 5, 1_600_000_000_000)];
    let curve = dex.get_glucose_transformer(&line);
    assert!(curve.is_some());
    assert!(dex.get_glucose_transformer(&vec![Cubic::new(0, 0, 0, 0)]).is_none());

    let mut sample = sample_of_two_peaks();
    sample.set_lipid_references(vec![
        Reference::from_row(Some("G3".to_string()), None, Some(3 * UNIT)).unwrap(),
    ]);
    sample.set_retention_time_tolerance(&(10 * UNIT));
    sample.set_glucose_unit_tolerance(&20_000);
    let all = ComponentFilter { unknown: true, located: true, reference: true };
    // Without a curve a reference known by glucose units alone has no place.
    let before = sample.get_components(&all);
    assert_eq!(before.len(), 3);
    assert!(matches!(before[2], Component::Reference(_)));
    assert_eq!(sample.get_unqualified_components()[1].gu, None);
    sample.set_glucose_transformer(&curve);
    let peaks = sample.get_unqualified_components();
    assert_eq!(peaks[0].gu, Some(2 * UNIT));
    assert_eq!(peaks[1].gu, Some(3 * UNIT));
    assert_eq!(
        sample.get_components(&all),
        vec![
            Component::Unknown(peaks[0]),
            Component::Located(
                peaks[1],
                Reference::from_row(Some("G3".to_string()), None, Some(3 * UNIT)).unwrap()
            ),
        ]
    );
    sample.set_glucose_transformer(&None);
    assert_eq!(sample.get_components(&all), before);
    let again = Spline::new(&vec![at(2, 2), at(7, 3)], &line);
    assert!(again.is_some());
}

#[test]
fn a_standard_lends_the_area_of_its_first_located_peak() {
    let mut sample = sample_of_two_peaks();
    sample.set_retention_time_tolerance(&200_000);
    assert_eq!(sample.get_standard_area(), None);
    sample.set_sample_type(&SampleType::Standard);
    // No peak is located while there is no reference to match.
    assert_eq!(sample.get_standard_area(), None);
    sample.set_lipid_references(vec![named("S", 7_100_000)]);
    assert_eq!(sample.get_standard_area(), Some(24 * UNIT as i128));
    sample.set_lipid_references(vec![named("S", 7_100_000), named("R", 2 * UNIT)]);
    assert_eq!(sample.get_standard_area(), Some(20 * UNIT as i128));
    sample.set_retention_time_tolerance(&0);
    assert_eq!(sample.get_standard_area(), Some(20 * UNIT as i128));
    sample.set_height_requirement(&(100 * UNIT));
    assert_eq!(sample.get_standard_area(), None);
    sample.set_height_requirement(&(3 * UNIT));
    sample.set_sample_type(&SampleType::Data);
    assert_eq!(sample.get_standard_area(), None);
}

#[test]
fn concentration_multiplier_formula() {
    // 2.5 * 40 / (50 * 2) = 1
    assert_eq!(
        Chromatography::get_concentration_multiplier(2 * UNIT as i128, 50 * UNIT, 40 * UNIT),
        Some(UNIT as i128)
    );
    // 2.5 * 1 / (3 * 1) = 0.8333...
    assert_eq!(Chromatography::get_concentration_multiplier(UNIT as i128, 3 * UNIT, UNIT), Some(833_333));
    assert_eq!(Chromatography::get_concentration_multiplier(-UNIT as i128, 3 * UNIT, UNIT), Some(-833_333));
    assert_eq!(Chromatography::get_concentration_multiplier(UNIT as i128, -3 * UNIT, -UNIT), Some(833_333));
    assert_eq!(Chromatography::get_concentration_multiplier(0, 50 * UNIT, 40 * UNIT), None);
    assert_eq!(Chromatography::get_concentration_multiplier(2 * UNIT as i128, 0, 40 * UNIT), None);
    assert_eq!(Chromatography::get_concentration_multiplier(2 * UNIT as i128, 50 * UNIT, 0), Some(0));
    assert_eq!(Chromatography::get_concentration_multiplier(i128::MAX, i64::MAX, i64::MAX), Some(0));
    assert_eq!(Chromatography::get_concentration_multiplier(1, 1, i64::MAX), Some(23_058_430_092_136_939_517_500_000_000_000));
}

#[test]
fn concentration_is_area_times_multiplier() {
    assert_eq!(Chromatography::get_concentration(3 * UNIT as i128, UNIT as i128), Some(3 * UNIT as i128));
    assert_eq!(Chromatography::get_concentration(3 * UNIT as i128, 833_333), Some(2_499_999));
    assert_eq!(Chromatography::get_concentration(-3 * UNIT as i128, 833_333), Some(-2_499_999));
    assert_eq!(Chromatography::get_concentration(0, i128::MAX), Some(0));
    assert_eq!(Chromatography::get_concentration(i128::MAX, 2), None);
}

#[test]
fn peak_kinds_differ() {
    assert_ne!(PeakKind::Apex, PeakKind::Shoulder);
}

#[test]
fn defaults() {
    assert_eq!(SampleType::default(), SampleType::Data);
    assert_eq!(Point2D::default(), Point2D { x: 0, y: 0 });
    assert_eq!(Peak::default(), Peak::starting_at(Point2D { x: 0, y: 0 }));
    assert_eq!(Cubic::default().evaluate(7 * UNIT), Some(7 * UNIT));
    let empty = Chromatography::default();
    assert_eq!(empty.get_data(), vec![]);
    assert_eq!(empty.get_sample_type(), SampleType::Data);
    assert_eq!(empty.get_total_area(), 0);
}

#[test]
fn a_copy_of_a_sample_shows_the_same() {
    let mut sample = sample_of_two_peaks();
    sample.set_lipid_references(vec![named("A", 2_100_000), named("B", 5 * UNIT)]);
    sample.set_retention_time_tolerance(&200_000);
    let copy = sample.clone();
    assert_eq!(shown(&copy), shown(&sample));
    assert_eq!(copy.get_data_range(), sample.get_data_range());
    sample.set_height_requirement(&(11 * UNIT));
    assert_eq!(copy.get_unqualified_components().len(), 2);
    assert_eq!(sample.get_unqualified_components().len(), 1);
}
