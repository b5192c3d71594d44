//! Detected peaks and the components that matching makes of them.

use vstd::prelude::*;
use crate::merge::{
    key_le,
    lemma_merge_ordered,
    lemma_slots_in_range,
    match_locations,
    match_slots,
    slot_in_range,
    slot_key,
    Slot,
};
use crate::reference::{curve_value, located_at, stated_gu, stated_rt, Reference};
use crate::spline::{curve_of, Curve, Spline};
use crate::vector::Point2D;

verus! {

/// How a peak was closed.
#[derive(Clone, Copy, Debug, PartialEq, Eq)]
pub enum PeakKind {
    /// Closed at a valley, or at the end of the trace: a peak with an apex
    /// of its own.
    Apex,
    /// Closed at an inflection on the flank of a neighbour.
    Shoulder,
}

/// A stretch of a trace that rises above the baseline.
#[derive(Clone, Copy, Debug, PartialEq, Eq)]
pub struct Peak {
    /// Where the peak begins.
    pub start: Point2D,
    /// The apex.
    pub retention_point: Point2D,
    /// Where the peak ends.
    pub end: Point2D,
    /// Intensity of the apex above the baseline under it.
    pub height: i64,
    /// Area between trace and baseline.
    pub area: i128,
    /// The apex in glucose units, where a calibration gives it one.
    pub gu: Option<i64>,
    pub kind: PeakKind,
}

/// The coordinate by which a peak is compared with references: its
/// retention time while no calibration is active, else what the curve makes
/// of it, which is nothing outside the curve's knots.
pub open spec fn peak_location(peak: Peak, curve: Option<Curve>) -> Option<i64> {
    match curve {
        None => Some(peak.retention_point.x),
        Some(c) => curve_value(c, peak.retention_point.x),
    }
}

impl Peak {
    /// A peak that begins at `start` and holds nothing yet.
    pub fn starting_at(start: Point2D) -> (peak: Peak)
        ensures
            peak == fresh_peak(start),
    {
        Peak {
            start,
            retention_point: Point2D { x: 0, y: 0 },
            end: Point2D { x: 0, y: 0 },
            height: 0,
            area: 0,
            gu: None,
            kind: PeakKind::Apex,
        }
    }

    pub fn get_retention_location(&self, spline: Option<&Spline>) -> (r: Option<i64>)
        requires
            spline is Some ==> spline.unwrap().wf(),
        ensures
            r == peak_location(*self, curve_of(spline)),
    {
        match spline {
            None => Some(self.retention_point.x),
            Some(c) => c.evaluate(self.retention_point.x),
        }
    }
}

impl Default for Peak {
    /// A peak that begins at the origin and holds nothing yet.
    fn default() -> (peak: Self)
        ensures
            peak == fresh_peak(Point2D { x: 0, y: 0 }),
    {
        Peak::starting_at(Point2D { x: 0, y: 0 })
    }
}

/// The peak that begins at `start` and holds nothing yet.
pub open spec fn fresh_peak(start: Point2D) -> Peak {
    Peak {
        start,
        retention_point: Point2D { x: 0, y: 0 },
        end: Point2D { x: 0, y: 0 },
        height: 0,
        area: 0,
        gu: None,
        kind: PeakKind::Apex,
    }
}

/// `peak` with its apex in glucose units as the curve gives it: none
/// without a curve or outside its knots.
pub open spec fn calibrated(peak: Peak, curve: Option<Curve>) -> Peak {
    Peak {
        start: peak.start,
        retention_point: peak.retention_point,
        end: peak.end,
        height: peak.height,
        area: peak.area,
        gu: match curve {
            Some(c) => curve_value(c, peak.retention_point.x),
            None => None,
        },
        kind: peak.kind,
    }
}

/// The peaks with their apexes in glucose units.
pub open spec fn all_calibrated(peaks: Seq<Peak>, curve: Option<Curve>) -> Seq<Peak> {
    Seq::new(peaks.len(), |k: int| calibrated(peaks[k], curve))
}

/// Gives each peak its apex in glucose units, as far as the curve reaches.
pub fn calibrate_peaks(peaks: &Vec<Peak>, curve: Option<&Spline>) -> (r: Vec<Peak>)
    requires
        curve is Some ==> curve.unwrap().wf(),
    ensures
        r@ == all_calibrated(peaks@, curve_of(curve)),
{
    let mut r: Vec<Peak> = Vec::new();
    let mut k: usize = 0;
    while k < peaks.len()
        invariant
            k <= peaks.len(),
            curve is Some ==> curve.unwrap().wf(),
            r.len() == k,
            forall|n: int| 0 <= n < k ==> r[n] == calibrated(peaks[n], curve_of(curve)),
        decreases peaks.len() - k,
    {
        let mut peak = peaks[k];
        peak.gu = match curve {
            Some(c) => c.evaluate(peak.retention_point.x),
            None => None,
        };
        r.push(peak);
        k += 1;
    }
    assert(r@ =~= all_calibrated(peaks@, curve_of(curve)));
    r
}

/// What matching makes of a peak, of a reference, or of both.
#[derive(Debug, PartialEq, Eq)]
pub enum Component {
    /// A detected peak that matches no reference.
    Unknown(Peak),
    /// A detected peak and the reference it matches.
    Located(Peak, Reference),
    /// A reference that no peak matches.
    Reference(Reference),
}

impl Component {
    /// The detected peak, if the component has one.
    pub open spec fn peak(&self) -> Option<Peak> {
        match self {
            Component::Unknown(peak) => Some(*peak),
            Component::Located(peak, _) => Some(*peak),
            Component::Reference(_) => None,
        }
    }

    /// The reference, if the component has one.
    pub open spec fn reference(&self) -> Option<Reference> {
        match self {
            Component::Unknown(_) => None,
            Component::Located(_, reference) => Some(*reference),
            Component::Reference(reference) => Some(*reference),
        }
    }

    pub fn get_experimental_location(&self, spline: Option<&Spline>) -> (r: Option<i64>)
        requires
            spline is Some ==> spline.unwrap().wf(),
        ensures
            r == (match self.peak() {
                Some(peak) => peak_location(peak, curve_of(spline)),
                None => None,
            }),
    {
        match self {
            Component::Unknown(peak) => peak.get_retention_location(spline),
            Component::Located(peak, _) => peak.get_retention_location(spline),
            Component::Reference(_) => None,
        }
    }

    pub fn get_expected_location(&self, spline: Option<&Spline>) -> (r: Option<i64>)
        requires
            spline is Some ==> spline.unwrap().wf(),
        ensures
            r == (match self.reference() {
                Some(reference) => located_at(reference.location(), curve_of(spline)),
                None => None,
            }),
    {
        match self {
            Component::Unknown(_) => None,
            Component::Located(_, reference) => reference.get_expected_location(spline),
            Component::Reference(reference) => reference.get_expected_location(spline),
        }
    }

    pub fn get_experimental_rt(&self) -> (r: Option<i64>)
        ensures
            r == (match self.peak() {
                Some(peak) => Some(peak.retention_point.x),
                None => None,
            }),
    {
        match self {
            Component::Unknown(peak) => Some(peak.retention_point.x),
            Component::Located(peak, _) => Some(peak.retention_point.x),
            Component::Reference(_) => None,
        }
    }

    pub fn get_expected_rt(&self) -> (r: Option<i64>)
        ensures
            r == (match self.reference() {
                Some(reference) => stated_rt(reference.location()),
                None => None,
            }),
    {
        match self {
            Component::Unknown(_) => None,
            Component::Located(_, reference) => reference.get_expected_rt(),
            Component::Reference(reference) => reference.get_expected_rt(),
        }
    }

    pub fn get_experimental_gu(&self, maybe_spline: Option<&Spline>) -> (r: Option<i64>)
        requires
            maybe_spline is Some ==> maybe_spline.unwrap().wf(),
        ensures
            r == (match (self.peak(), curve_of(maybe_spline)) {
                (Some(peak), Some(curve)) => curve_value(curve, peak.retention_point.x),
                _ => None,
            }),
    {
        match self {
            Component::Unknown(peak) => match maybe_spline {
                Some(curve) => curve.evaluate(peak.retention_point.x),
                None => None,
            },
            Component::Located(peak, _) => match maybe_spline {
                Some(curve) => curve.evaluate(peak.retention_point.x),
                None => None,
            },
            Component::Reference(_) => None,
        }
    }

    pub fn get_expected_gu(&self, spline: Option<&Spline>) -> (r: Option<i64>)
        requires
            spline is Some ==> spline.unwrap().wf(),
        ensures
            r == (match self.reference() {
                Some(reference) => stated_gu(reference.location(), curve_of(spline)),
                None => None,
            }),
    {
        match self {
            Component::Unknown(_) => None,
            Component::Located(_, reference) => reference.get_expected_gu(spline),
            Component::Reference(reference) => reference.get_expected_gu(spline),
        }
    }

    pub fn get_area(&self) -> (r: Option<i128>)
        ensures
            r == (match self.peak() {
                Some(peak) => Some(peak.area),
                None => None,
            }),
    {
        match self {
            Component::Unknown(peak) => Some(peak.area),
            Component::Located(peak, _) => Some(peak.area),
            Component::Reference(_) => None,
        }
    }
}

impl Clone for Component {
    fn clone(&self) -> (r: Self)
        ensures
            r == *self,
    {
        match self {
            Component::Unknown(peak) => Component::Unknown(*peak),
            Component::Located(peak, reference) => Component::Located(*peak, reference.clone()),
            Component::Reference(reference) => Component::Reference(reference.clone()),
        }
    }
}

/// Copies a list of components.
pub fn clone_components(list: &Vec<Component>) -> (copy: Vec<Component>)
    ensures
        copy@ == list@,
{
    let mut copy: Vec<Component> = Vec::new();
    let mut k: usize = 0;
    while k < list.len()
        invariant
            k <= list.len(),
            copy@ == list@.take(k as int),
        decreases list.len() - k,
    {
        copy.push(list[k].clone());
        assert(list@.take(k + 1) =~= list@.take(k as int).push(list@[k as int]));
        k += 1;
    }
    assert(list@.take(list.len() as int) =~= list@);
    copy
}

/// Locations of the peaks, in the order of the list.
pub open spec fn peak_locations(peaks: Seq<Peak>, curve: Option<Curve>) -> Seq<Option<i64>> {
    Seq::new(peaks.len(), |k: int| peak_location(peaks[k], curve))
}

/// Expected locations of the references, in the order of the table.
pub open spec fn reference_locations(references: Seq<Reference>, curve: Option<Curve>) -> Seq<
    Option<i64>,
> {
    Seq::new(references.len(), |k: int| located_at(references[k].location(), curve))
}

/// The tolerance in force: that of glucose units under a calibration, else
/// that of retention times.
pub open spec fn active_tolerance(
    curve: Option<Curve>,
    retention_time_tolerance: i64,
    glucose_unit_tolerance: i64,
) -> i64 {
    if curve is Some {
        glucose_unit_tolerance
    } else {
        retention_time_tolerance
    }
}

/// The component that an entry of the merged result stands for.
pub open spec fn component_of(slot: Slot, peaks: Seq<Peak>, references: Seq<Reference>) -> Component {
    match slot {
        Slot::Unknown(p) => Component::Unknown(peaks[p as int]),
        Slot::Located(p, r) => Component::Located(peaks[p as int], references[r as int]),
        Slot::Missing(r) => Component::Reference(references[r as int]),
    }
}

/// The components of a sample: its peaks matched greedily against the
/// references within the tolerance in force, then every peak and every
/// reference listed once, merged by location.
pub open spec fn identified(
    peaks: Seq<Peak>,
    references: Seq<Reference>,
    curve: Option<Curve>,
    retention_time_tolerance: i64,
    glucose_unit_tolerance: i64,
) -> Seq<Component> {
    let slots = match_slots(
        peak_locations(peaks, curve),
        reference_locations(references, curve),
        active_tolerance(curve, retention_time_tolerance, glucose_unit_tolerance) as int,
    );
    Seq::new(slots.len(), |k: int| component_of(slots[k], peaks, references))
}

/// The location by which a component is placed: that of its peak, or for
/// a reference without a peak the location where it is expected.
pub open spec fn component_location(component: Component, curve: Option<Curve>) -> Option<i64> {
    match component {
        Component::Unknown(peak) => peak_location(peak, curve),
        Component::Located(peak, _) => peak_location(peak, curve),
        Component::Reference(reference) => located_at(reference.location(), curve),
    }
}

/// The components stand in order of location, an absent location counting
/// as later than every present one.
pub open spec fn components_ordered(components: Seq<Component>, curve: Option<Curve>) -> bool {
    forall|a: int, b: int|
        0 <= a < b < components.len() ==> key_le(
            component_location(#[trigger] components[a], curve),
            component_location(#[trigger] components[b], curve),
        )
}

/// The components of a sample stand in order of location, whatever the
/// order of the peaks and of the reference table.
pub proof fn lemma_identified_ordered(
    peaks: Seq<Peak>,
    references: Seq<Reference>,
    curve: Option<Curve>,
    retention_time_tolerance: i64,
    glucose_unit_tolerance: i64,
)
    requires
        peaks.len() <= usize::MAX,
        references.len() <= usize::MAX,
    ensures
        components_ordered(
            identified(peaks, references, curve, retention_time_tolerance, glucose_unit_tolerance),
            curve,
        ),
{
    let ploc = peak_locations(peaks, curve);
    let rloc = reference_locations(references, curve);
    let tolerance = active_tolerance(curve, retention_time_tolerance, glucose_unit_tolerance) as int;
    let slots = match_slots(ploc, rloc, tolerance);
    let components = identified(
        peaks,
        references,
        curve,
        retention_time_tolerance,
        glucose_unit_tolerance,
    );
    lemma_merge_ordered(ploc, rloc, tolerance);
    lemma_slots_in_range(ploc, rloc, tolerance);
    assert forall|k: int| 0 <= k < components.len() implies component_location(
        #[trigger] components[k],
        curve,
    ) == slot_key(slots[k], ploc, rloc) by {
        assert(slot_in_range(slots[k], ploc.len(), rloc.len()));
    }
    assert forall|a: int, b: int| 0 <= a < b < components.len() implies key_le(
        component_location(#[trigger] components[a], curve),
        component_location(#[trigger] components[b], curve),
    ) by {
        assert(key_le(slot_key(slots[a], ploc, rloc), slot_key(slots[b], ploc, rloc)));
    }
}

/// Matches the peaks of a sample against the reference table and lists what
/// was found, what was found and expected, and what was expected only, in
/// order of location.
pub fn identify_components(
    peaks: &Vec<Peak>,
    references: &Vec<Reference>,
    curve: Option<&Spline>,
    retention_time_tolerance: i64,
    glucose_unit_tolerance: i64,
) -> (components: Vec<Component>)
    requires
        curve is Some ==> curve.unwrap().wf(),
    ensures
        components@ == identified(
            peaks@,
            references@,
            curve_of(curve),
            retention_time_tolerance,
            glucose_unit_tolerance,
        ),
        components_ordered(components@, curve_of(curve)),
{
    let tolerance = match curve {
        Some(_) => glucose_unit_tolerance,
        None => retention_time_tolerance,
    };
    proof {
        assert(references@.len() == references.len());
        assert(peaks@.len() == peaks.len());
        lemma_identified_ordered(
            peaks@,
            references@,
            curve_of(curve),
            retention_time_tolerance,
            glucose_unit_tolerance,
        );
    }
    let mut ploc: Vec<Option<i64>> = Vec::new();
    let mut k: usize = 0;
    while k < peaks.len()
        invariant
            k <= peaks.len(),
            curve is Some ==> curve.unwrap().wf(),
            ploc@ =~= peak_locations(peaks@.take(k as int), curve_of(curve)),
        decreases peaks.len() - k,
    {
        ploc.push(peaks[k].get_retention_location(curve));
        k += 1;
    }
    let mut rloc: Vec<Option<i64>> = Vec::new();
    let mut k: usize = 0;
    while k < references.len()
        invariant
            k <= references.len(),
            curve is Some ==> curve.unwrap().wf(),
            rloc@ =~= reference_locations(references@.take(k as int), curve_of(curve)),
        decreases references.len() - k,
    {
        rloc.push(references[k].get_expected_location(curve));
        k += 1;
    }
    assert(peaks@.take(peaks.len() as int) =~= peaks@);
    assert(references@.take(references.len() as int) =~= references@);
    let slots = match_locations(&ploc, &rloc, tolerance);
    let mut components: Vec<Component> = Vec::new();
    let mut k: usize = 0;
    while k < slots.len()
        invariant
            k <= slots.len(),
            ploc@.len() == peaks@.len(),
            rloc@.len() == references@.len(),
            forall|n: int|
                0 <= n < slots.len() ==> slot_in_range(
                    #[trigger] slots[n],
                    ploc@.len(),
                    rloc@.len(),
                ),
            components@ =~= Seq::new(
                k as nat,
                |n: int| component_of(slots@[n], peaks@, references@),
            ),
        decreases slots.len() - k,
    {
        assert(slot_in_range(slots[k as int], ploc@.len(), rloc@.len()));
        let component = match slots[k] {
            Slot::Unknown(p) => Component::Unknown(peaks[p]),
            Slot::Located(p, r) => Component::Located(peaks[p], references[r].clone()),
            Slot::Missing(r) => Component::Reference(references[r].clone()),
        };
        components.push(component);
        k += 1;
    }
    components
}

} // verus!
