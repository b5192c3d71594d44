use hplc::matcher::greedy_match;
use hplc::merge::{match_locations, sort_by_location, Slot};

const UNIT: i64 = 1_000_000;

#[test]
fn nearest_reference_within_tolerance_is_located() {
    let peaks = vec![Some(10 * UNIT)];
    let references = vec![Some(10_200_000i64)];
    let slots = match_locations(&peaks, &references, 500_000);
    assert_eq!(slots, vec![Slot::Located(0, 0)]);
}

#[test]
fn reference_beyond_tolerance_is_missing() {
    let peaks = vec![Some(10 * UNIT)];
    let references = vec![Some(10_200_000i64)];
    let slots = match_locations(&peaks, &references, 100_000);
    assert_eq!(slots, vec![Slot::Unknown(0), Slot::Missing(0)]);
}

#[test]
fn tolerance_boundary_from_both_sides() {
    let tolerance = 200_000i64;
    let peaks = vec![Some(10 * UNIT)];
    let just_outside = vec![Some(10 * UNIT + tolerance + 1)];
    assert_eq!(
        match_locations(&peaks, &just_outside, tolerance),
        vec![Slot::Unknown(0), Slot::Missing(0)]
    );
    let just_inside = vec![Some(10 * UNIT + tolerance - 1)];
    assert_eq!(match_locations(&peaks, &just_inside, tolerance), vec![Slot::Located(0, 0)]);
    let exactly_at = vec![Some(10 * UNIT + tolerance)];
    assert_eq!(match_locations(&peaks, &exactly_at, tolerance), vec![Slot::Located(0, 0)]);
    let below = vec![Some(10 * UNIT - tolerance - 1)];
    assert_eq!(
        match_locations(&peaks, &below, tolerance),
        vec![Slot::Missing(0), Slot::Unknown(0)]
    );
}

#[test]
fn nearest_pair_is_taken_first() {
    // Reference 0 is nearer to peak 1 than reference 1 is to anything.
    let peaks = vec![Some(10 * UNIT), Some(11 * UNIT)];
    let references = vec![Some(10_900_000i64), Some(10_600_000i64)];
    let (partner, owner) = greedy_match(&peaks, &references, 700_000);
    assert_eq!(partner, vec![Some(1), Some(0)]);
    assert_eq!(owner, vec![Some(1), Some(0)]);
}

#[test]
fn greedy_is_not_optimal() {
    // The nearest pair (peak 1, reference 0) is accepted first; what is left
    // of the references lies too far from peak 0, although pairing peak 0
    // with reference 0 and peak 1 with reference 1 would have placed both.
    let peaks = vec![Some(10 * UNIT), Some(11 * UNIT)];
    let references = vec![Some(10_600_000i64), Some(11_500_000i64)];
    let (partner, owner) = greedy_match(&peaks, &references, 600_000);
    assert_eq!(partner, vec![None, Some(0)]);
    assert_eq!(owner, vec![Some(1), None]);
}

#[test]
fn equal_gaps_go_to_the_first_reference_then_the_first_peak() {
    let peaks = vec![Some(10 * UNIT), Some(12 * UNIT)];
    let references = vec![Some(11 * UNIT)];
    let (partner, owner) = greedy_match(&peaks, &references, 2 * UNIT);
    assert_eq!(partner, vec![Some(0), None]);
    assert_eq!(owner, vec![Some(0)]);
}

#[test]
fn merge_lists_every_peak_and_reference_once() {
    let peaks = vec![Some(1 * UNIT), Some(4 * UNIT), Some(9 * UNIT), None];
    let references = vec![Some(4_100_000i64), Some(6 * UNIT), None, Some(500_000i64)];
    let slots = match_locations(&peaks, &references, 200_000);
    assert_eq!(
        slots,
        vec![
            Slot::Missing(3),
            Slot::Unknown(0),
            Slot::Located(1, 0),
            Slot::Missing(1),
            Slot::Unknown(2),
            Slot::Missing(2),
            Slot::Unknown(3),
        ]
    );
    assert_eq!(slots.len(), 3 + 1 + 3);
    for peak in 0..peaks.len() {
        let mentions = slots
            .iter()
            .filter(|slot| match slot {
                Slot::Unknown(p) => *p == peak,
                Slot::Located(p, _) => *p == peak,
                Slot::Missing(_) => false,
            })
            .count();
        assert_eq!(mentions, 1);
    }
    for reference in 0..references.len() {
        let mentions = slots
            .iter()
            .filter(|slot| match slot {
                Slot::Unknown(_) => false,
                Slot::Located(_, r) => *r == reference,
                Slot::Missing(r) => *r == reference,
            })
            .count();
        assert_eq!(mentions, 1);
    }
}

#[test]
fn lists_in_order_merge_in_order_of_location() {
    let peaks = vec![Some(1 * UNIT), Some(4 * UNIT), Some(9 * UNIT)];
    let references = vec![Some(500_000i64), Some(4_100_000i64), Some(6 * UNIT)];
    let slots = match_locations(&peaks, &references, 200_000);
    assert_eq!(
        slots,
        vec![
            Slot::Missing(0),
            Slot::Unknown(0),
            Slot::Located(1, 1),
            Slot::Missing(2),
            Slot::Unknown(2),
        ]
    );
}

#[test]
fn paired_peak_goes_before_a_free_reference_at_the_same_location() {
    let peaks = vec![Some(5 * UNIT)];
    let references = vec![Some(5 * UNIT), Some(5 * UNIT)];
    let slots = match_locations(&peaks, &references, 0);
    assert_eq!(slots, vec![Slot::Located(0, 0), Slot::Missing(1)]);
}

#[test]
fn free_reference_goes_before_a_free_peak_at_the_same_location() {
    let peaks = vec![Some(5 * UNIT)];
    let references = vec![Some(5 * UNIT)];
    let slots = match_locations(&peaks, &references, -1);
    assert_eq!(slots, vec![Slot::Missing(0), Slot::Unknown(0)]);
}

#[test]
fn nothing_to_match() {
    let none: Vec<Option<i64>> = vec![];
    assert_eq!(match_locations(&none, &none, UNIT), vec![]);
    let peaks = vec![Some(3 * UNIT), Some(1 * UNIT)];
    assert_eq!(match_locations(&peaks, &none, UNIT), vec![Slot::Unknown(1), Slot::Unknown(0)]);
    assert_eq!(match_locations(&none, &peaks, UNIT), vec![Slot::Missing(1), Slot::Missing(0)]);
}

#[test]
fn items_without_location_are_never_paired() {
    let peaks = vec![None, Some(2 * UNIT)];
    let references = vec![None, Some(2 * UNIT)];
    let (partner, owner) = greedy_match(&peaks, &references, i64::MAX);
    assert_eq!(partner, vec![None, Some(1)]);
    assert_eq!(owner, vec![None, Some(1)]);
}

#[test]
fn paired_peaks_are_listed_in_order_of_location() {
    let peaks = vec![Some(9 * UNIT), Some(4 * UNIT)];
    let references = vec![Some(4_100_000i64), Some(9_100_000i64)];
    let slots = match_locations(&peaks, &references, 200_000);
    assert_eq!(slots, vec![Slot::Located(1, 0), Slot::Located(0, 1)]);
}

#[test]
fn sorting_by_location_keeps_the_order_of_equals() {
    let locations = vec![Some(5 * UNIT), None, Some(5 * UNIT), Some(1 * UNIT), None];
    assert_eq!(sort_by_location(&vec![0, 1, 2, 3, 4], &locations), vec![3, 0, 2, 1, 4]);
    assert_eq!(sort_by_location(&vec![4, 2, 1, 0], &locations), vec![2, 0, 4, 1]);
    assert_eq!(sort_by_location(&vec![], &locations), vec![]);
}

#[test]
fn the_merged_list_is_in_order_whatever_the_order_of_the_lists() {
    let peaks = vec![Some(9 * UNIT), Some(1 * UNIT), Some(4 * UNIT), Some(7 * UNIT)];
    let references = vec![Some(20 * UNIT), Some(10 * UNIT), Some(4_100_000i64), Some(500_000i64)];
    let slots = match_locations(&peaks, &references, 200_000);
    assert_eq!(
        slots,
        vec![
            Slot::Missing(3),
            Slot::Unknown(1),
            Slot::Located(2, 2),
            Slot::Unknown(3),
            Slot::Unknown(0),
            Slot::Missing(1),
            Slot::Missing(0),
        ]
    );
    let locations: Vec<i64> = slots
        .iter()
        .map(|slot| match slot {
            Slot::Unknown(p) => peaks[*p].unwrap(),
            Slot::Located(p, _) => peaks[*p].unwrap(),
            Slot::Missing(r) => references[*r].unwrap(),
        })
        .collect();
    assert!(locations.windows(2).all(|pair| pair[0] <= pair[1]));
}
