use hplc::component::{
    calibrate_peaks, clone_components, identify_components, Component, Peak, PeakKind,
};
use hplc::reference::{clone_references, ExpectedLocation, Reference, ReferenceBuilder};
use hplc::spline::{Cubic, Spline, COEFFICIENT_SCALE};
use hplc::vector::Point2D;

const UNIT: i64 = 1_000_000;

fn peak_at(time: i64) -> Peak {
    Peak {
        start: Point2D { x: time - UNIT, y: 0 },
        retention_point: Point2D { x: time, y: 5 * UNIT },
        end: Point2D { x: time + UNIT, y: 0 },
        height: 5 * UNIT,
        area: 5 * UNIT as i128,
        gu: None,
        kind: PeakKind::Apex,
    }
}

fn named(name: &str, rt: Option<i64>, gu: Option<i64>) -> Reference {
    Reference::from_row(Some(name.to_string()), rt, gu).unwrap()
}

/// Glucose units are twice the retention time, from 0 to 20.
fn doubling() -> Spline {
    let knots = vec![Point2D { x: 0, y: 0 }, Point2D { x: 20 * UNIT, y: 40 * UNIT }];
    let cubics = vec![Cubic::new(0, 0, 2 * COEFFICIENT_SCALE, 0)];
    Spline::new(&knots, &cubics).unwrap()
}

#[test]
fn one_peak_one_reference_within_tolerance() {
    let peaks = vec![peak_at(10 * UNIT)];
    let references = vec![named("A", Some(10_200_000), None)];
    let components = identify_components(&peaks, &references, None, 500_000, 0);
    assert_eq!(
        components,
        vec![Component::Located(peak_at(10 * UNIT), named("A", Some(10_200_000), None))]
    );
}

#[test]
fn one_peak_one_reference_beyond_tolerance() {
    let peaks = vec![peak_at(10 * UNIT)];
    let references = vec![named("A", Some(10_200_000), None)];
    let components = identify_components(&peaks, &references, None, 100_000, 0);
    assert_eq!(
        components,
        vec![
            Component::Unknown(peak_at(10 * UNIT)),
            Component::Reference(named("A", Some(10_200_000), None)),
        ]
    );
}

#[test]
fn without_a_curve_the_retention_time_tolerance_is_in_force() {
    let peaks = vec![peak_at(10 * UNIT)];
    let references = vec![named("A", Some(10_200_000), None)];
    let loose_gu = identify_components(&peaks, &references, None, 100_000, 10 * UNIT);
    assert_eq!(loose_gu.len(), 2);
}

#[test]
fn with_a_curve_glucose_units_are_compared() {
    let curve = doubling();
    let peaks = vec![peak_at(5 * UNIT), peak_at(8 * UNIT), peak_at(30 * UNIT)];
    let references = vec![
        named("by time", Some(8_100_000), None),
        named("by units", None, Some(10_300_000)),
        named("both", Some(1 * UNIT), Some(50 * UNIT)),
        named("out of reach", Some(21 * UNIT), None),
    ];
    let components = identify_components(&peaks, &references, Some(&curve), 0, 300_000);
    assert_eq!(
        components,
        vec![
            Component::Located(peak_at(5 * UNIT), named("by units", None, Some(10_300_000))),
            Component::Located(peak_at(8 * UNIT), named("by time", Some(8_100_000), None)),
            Component::Reference(named("both", Some(1 * UNIT), Some(50 * UNIT))),
            Component::Reference(named("out of reach", Some(21 * UNIT), None)),
            Component::Unknown(peak_at(30 * UNIT)),
        ]
    );
    // Two glucose units for each unit of time: 8.1 lies 0.2 from 8.
    let tight = identify_components(&peaks, &references, Some(&curve), 10 * UNIT, 199_999);
    assert_eq!(tight[0], Component::Unknown(peak_at(5 * UNIT)));
    assert_eq!(tight.len(), 3 + 4);
    let exact = identify_components(&peaks, &references, Some(&curve), 10 * UNIT, 200_000);
    assert_eq!(exact.len(), 3 + 4 - 1);
    assert_eq!(
        exact[2],
        Component::Located(peak_at(8 * UNIT), named("by time", Some(8_100_000), None))
    );
}

#[test]
fn every_peak_and_reference_is_listed_once() {
    let peaks = vec![peak_at(3 * UNIT), peak_at(6 * UNIT), peak_at(9 * UNIT)];
    let references = vec![
        named("B", Some(6 * UNIT), None),
        named("A", Some(1 * UNIT), None),
        named("G", None, Some(4 * UNIT)),
    ];
    let components = identify_components(&peaks, &references, None, 500_000, 0);
    let located = components.iter().filter(|c| matches!(c, Component::Located(_, _))).count();
    let unknown = components.iter().filter(|c| matches!(c, Component::Unknown(_))).count();
    let missing = components.iter().filter(|c| matches!(c, Component::Reference(_))).count();
    assert_eq!((unknown, located, missing), (2, 1, 2));
    assert_eq!(components.len(), unknown + located + missing);
    for peak in &peaks {
        let times = components
            .iter()
            .filter(|c| c.get_experimental_rt() == Some(peak.retention_point.x))
            .count();
        assert_eq!(times, 1);
    }
    for reference in &references {
        let times = components
            .iter()
            .filter(|c| match c {
                Component::Unknown(_) => false,
                Component::Located(_, r) => r == reference,
                Component::Reference(r) => r == reference,
            })
            .count();
        assert_eq!(times, 1);
    }
}

#[test]
fn a_row_needs_a_retention_time_or_glucose_units() {
    assert!(Reference::from_row(Some("none".to_string()), None, None).is_none());
    assert!(Reference::from_row(None, None, None).is_none());
    let rt = Reference::from_row(None, Some(3), None).unwrap();
    assert_eq!(rt.name, None);
    assert_eq!(rt.get_location(), ExpectedLocation::RetentionTime(3));
    let gu = Reference::from_row(None, None, Some(4)).unwrap();
    assert_eq!(gu.get_location(), ExpectedLocation::GlucoseUnit(4));
    let both = Reference::from_row(None, Some(3), Some(4)).unwrap();
    assert_eq!(both.get_location(), ExpectedLocation::Complete(3, 4));
}

#[test]
fn builder_takes_cells_in_any_order() {
    let mut builder = ReferenceBuilder::new();
    assert!(ReferenceBuilder::new().build().is_none());
    builder.parse_glucose_units(7);
    builder.parse_name("M5".to_string());
    builder.parse_retention_time(3);
    builder.parse_retention_time(30);
    builder.parse_glucose_units(70);
    let reference = builder.build().unwrap();
    assert_eq!(reference.name, Some("M5".to_string()));
    assert_eq!(reference.get_location(), ExpectedLocation::Complete(3, 7));

    let mut named_only = ReferenceBuilder::new();
    named_only.parse_name("nothing".to_string());
    assert!(named_only.build().is_none());

    let mut time_first = ReferenceBuilder::new();
    time_first.parse_retention_time(3);
    time_first.parse_retention_time(30);
    assert_eq!(
        time_first.build().unwrap().get_location(),
        ExpectedLocation::RetentionTime(3)
    );
}

#[test]
fn reference_locations_with_and_without_a_curve() {
    let curve = doubling();
    let by_time = named("t", Some(4 * UNIT), None);
    let by_units = named("u", None, Some(9 * UNIT));
    let both = named("b", Some(4 * UNIT), Some(9 * UNIT));
    let far = named("f", Some(25 * UNIT), None);

    assert_eq!(by_time.get_expected_location(None), Some(4 * UNIT));
    assert_eq!(by_units.get_expected_location(None), None);
    assert_eq!(both.get_expected_location(None), Some(4 * UNIT));

    assert_eq!(by_time.get_expected_location(Some(&curve)), Some(8 * UNIT));
    assert_eq!(by_units.get_expected_location(Some(&curve)), Some(9 * UNIT));
    assert_eq!(both.get_expected_location(Some(&curve)), Some(9 * UNIT));
    assert_eq!(far.get_expected_location(Some(&curve)), None);

    assert_eq!(by_time.get_expected_rt(), Some(4 * UNIT));
    assert_eq!(by_units.get_expected_rt(), None);
    assert_eq!(both.get_expected_rt(), Some(4 * UNIT));

    assert_eq!(by_time.get_expected_gu(None), None);
    assert_eq!(by_time.get_expected_gu(Some(&curve)), Some(8 * UNIT));
    assert_eq!(by_units.get_expected_gu(None), Some(9 * UNIT));
    assert_eq!(both.get_expected_gu(Some(&curve)), Some(9 * UNIT));
    assert_eq!(far.get_expected_gu(Some(&curve)), None);
    assert_eq!(by_time.clone(), by_time);
}

#[test]
fn component_views() {
    let curve = doubling();
    let peak = peak_at(6 * UNIT);
    let reference = named("r", Some(7 * UNIT), None);
    let unknown = Component::Unknown(peak);
    let located = Component::Located(peak, reference.clone());
    let missing = Component::Reference(reference.clone());

    assert_eq!(unknown.get_experimental_location(None), Some(6 * UNIT));
    assert_eq!(located.get_experimental_location(Some(&curve)), Some(12 * UNIT));
    assert_eq!(missing.get_experimental_location(None), None);

    assert_eq!(unknown.get_expected_location(None), None);
    assert_eq!(located.get_expected_location(None), Some(7 * UNIT));
    assert_eq!(missing.get_expected_location(Some(&curve)), Some(14 * UNIT));

    assert_eq!(unknown.get_experimental_rt(), Some(6 * UNIT));
    assert_eq!(located.get_experimental_rt(), Some(6 * UNIT));
    assert_eq!(missing.get_experimental_rt(), None);

    assert_eq!(unknown.get_expected_rt(), None);
    assert_eq!(located.get_expected_rt(), Some(7 * UNIT));
    assert_eq!(missing.get_expected_rt(), Some(7 * UNIT));

    assert_eq!(unknown.get_experimental_gu(None), None);
    assert_eq!(unknown.get_experimental_gu(Some(&curve)), Some(12 * UNIT));
    assert_eq!(missing.get_experimental_gu(Some(&curve)), None);

    assert_eq!(unknown.get_expected_gu(Some(&curve)), None);
    assert_eq!(located.get_expected_gu(Some(&curve)), Some(14 * UNIT));
    assert_eq!(missing.get_expected_gu(None), None);

    assert_eq!(unknown.get_area(), Some(5 * UNIT as i128));
    assert_eq!(located.get_area(), Some(5 * UNIT as i128));
    assert_eq!(missing.get_area(), None);
    assert_eq!(located.clone(), located);

    let outside = peak_at(50 * UNIT);
    assert_eq!(outside.get_retention_location(Some(&curve)), None);
    assert_eq!(outside.get_retention_location(None), Some(50 * UNIT));
}

#[test]
fn peaks_get_glucose_units_as_far_as_the_curve_reaches() {
    let curve = doubling();
    let peaks = vec![peak_at(5 * UNIT), peak_at(30 * UNIT)];
    let with = calibrate_peaks(&peaks, Some(&curve));
    assert_eq!(with[0].gu, Some(10 * UNIT));
    assert_eq!(with[1].gu, None);
    assert_eq!(with[0].retention_point, peaks[0].retention_point);
    assert_eq!(with[0].area, peaks[0].area);
    assert_eq!(calibrate_peaks(&with, None), peaks);
}

#[test]
fn lists_are_copied_whole() {
    let table = vec![named("A", Some(1), None), named("B", None, Some(2))];
    assert_eq!(clone_references(&table), table);
    assert_eq!(clone_references(&vec![]), vec![]);
    let list = vec![
        Component::Unknown(peak_at(UNIT)),
        Component::Located(peak_at(2 * UNIT), named("A", Some(1), None)),
        Component::Reference(named("B", None, Some(2))),
    ];
    assert_eq!(clone_components(&list), list);
}

#[test]
fn a_table_out_of_order_is_listed_in_order() {
    let references = vec![named("late", Some(20 * UNIT), None), named("early", Some(10 * UNIT), None)];
    let components = identify_components(&vec![], &references, None, UNIT, 0);
    assert_eq!(
        components,
        vec![
            Component::Reference(named("early", Some(10 * UNIT), None)),
            Component::Reference(named("late", Some(20 * UNIT), None)),
        ]
    );
    let peaks = vec![peak_at(30 * UNIT), peak_at(5 * UNIT)];
    let components = identify_components(&peaks, &references, None, UNIT, 0);
    let locations: Vec<Option<i64>> = components
        .iter()
        .map(|c| c.get_experimental_location(None).or(c.get_expected_location(None)))
        .collect();
    assert_eq!(
        locations,
        vec![Some(5 * UNIT), Some(10 * UNIT), Some(20 * UNIT), Some(30 * UNIT)]
    );
}
