//! A sample: its raw trace, its settings, and everything that follows from
//! them. Whatever is set, all that depends on it is computed anew before the
//! call returns, so what a sample shows always belongs to what it holds.

use vstd::prelude::*;
use crate::baseline::{baseline_of, calculate_baseline};
use crate::fixed::{divide, lemma_quotient_small, quotient, trunc_div};
use crate::component::{
    all_calibrated,
    calibrate_peaks,
    clone_components,
    identified,
    identify_components,
    Component,
    Peak,
};
use crate::ladder::{glucose_ladder, ladder_of};
use crate::reference::{clone_references, Reference};
use crate::segmenter::{
    area_sum,
    calculate_area,
    calculate_components,
    lemma_calibrated_areas,
    segmented,
    sum_areas,
    trace_area,
    Trace,
};
use crate::series::{
    admitted,
    derivative,
    calculate_derivative,
    mean_filter,
    restrict,
    restricted,
    sanitize,
    smoothed,
    valid_series,
    TimeRange,
};
use crate::spline::{acceptable_fit, held_curve, Cubic, Curve, Spline};
use crate::vector::Point2D;

verus! {

/// The role of a sample in a session.
#[derive(Clone, Copy, Debug, PartialEq, Eq)]
pub enum SampleType {
    /// An ordinary sample.
    Data,
    /// A blank run, whose trace other samples may subtract.
    Blank,
    /// A dextran ladder, from which the calibration curve is made.
    Dex,
    /// A standard of known concentration.
    Standard,
}

impl Default for SampleType {
    /// A sample is an ordinary one until it is given another role.
    fn default() -> (role: Self)
        ensures
            role == SampleType::Data,
    {
        SampleType::Data
    }
}

/// Which kinds of component a listing shows.
#[derive(Clone, Copy, Debug, PartialEq, Eq)]
pub struct ComponentFilter {
    pub unknown: bool,
    pub located: bool,
    pub reference: bool,
}

impl ComponentFilter {
    /// What was detected, matched or not.
    pub fn existing_only() -> (f: ComponentFilter)
        ensures
            f.unknown && f.located && !f.reference,
    {
        ComponentFilter { unknown: true, located: true, reference: false }
    }

    /// What the reference table expects, detected or not.
    pub fn expected_only() -> (f: ComponentFilter)
        ensures
            !f.unknown && f.located && f.reference,
    {
        ComponentFilter { unknown: false, located: true, reference: true }
    }

    /// The filter lets the component through.
    pub open spec fn admits(&self, component: Component) -> bool {
        match component {
            Component::Unknown(_) => self.unknown,
            Component::Located(_, _) => self.located,
            Component::Reference(_) => self.reference,
        }
    }
}

/// Half-width of the smoothing window of a new sample.
pub const MEAN_FILTER_RANGE: usize = 5;

/// Start of the window of time to which a dextran ladder is held.
pub const DEX_START: i64 = 0;

/// End of the window of time to which a dextran ladder is held.
pub const DEX_END: i64 = 38_700_000;

/// What a sample holds: its raw trace and its settings.
pub struct Inputs {
    /// The raw trace, a valid series.
    pub raw: Seq<Point2D>,
    pub sample_type: SampleType,
    /// The window of time chosen for the sample, if one was chosen.
    pub data_range: Option<TimeRange>,
    /// Half-width of the smoothing window.
    pub smoothing_window: usize,
    pub include_unknowns: bool,
    pub height_requirement: i64,
    pub inflection_requirement: i64,
    pub retention_time_tolerance: i64,
    pub glucose_unit_tolerance: i64,
    /// The reference table of the session.
    pub references: Seq<Reference>,
    /// The calibration curve of the session, if there is one.
    pub curve: Option<Curve>,
}

/// What follows from what a sample holds.
pub struct Derived {
    /// The smoothed trace within the window in force.
    pub cleaned: Seq<Point2D>,
    pub first_derivative: Seq<Point2D>,
    pub second_derivative: Seq<Point2D>,
    pub baseline: Seq<Point2D>,
    /// Area between the smoothed trace and its baseline.
    pub trace_area: i128,
    /// Sum of the areas of the peaks.
    pub total_area: i128,
    /// The peaks, before matching, with their apexes in glucose units as
    /// far as the curve gives them.
    pub peaks: Seq<Peak>,
    /// The components, after matching.
    pub components: Seq<Component>,
}

/// The raw trace is a valid series and the curve, if any, fits its knots.
pub open spec fn inputs_ok(i: Inputs) -> bool {
    &&& valid_series(i.raw)
    &&& i.curve is Some ==> i.curve.unwrap().wf()
}

/// The window of time in force: the fixed window of the ladder for a
/// dextran sample, else the one chosen, if any.
pub open spec fn active_range(i: Inputs) -> Option<TimeRange> {
    match i.sample_type {
        SampleType::Dex => Some(TimeRange { start: DEX_START, end: DEX_END }),
        _ => i.data_range,
    }
}

/// The smoothed raw trace, restricted to the window in force.
pub open spec fn cleaned_of(i: Inputs) -> Seq<Point2D> {
    let all = smoothed(i.raw, i.smoothing_window as int);
    match active_range(i) {
        Some(range) => restricted(all, range),
        None => all,
    }
}

/// Everything that follows from the raw trace and the settings.
pub open spec fn derived_of(i: Inputs) -> Derived {
    let cleaned = cleaned_of(i);
    let first = derivative(cleaned);
    let second = derivative(first);
    let baseline = baseline_of(cleaned);
    let peaks = all_calibrated(
        segmented(
            Trace {
                series: cleaned,
                baseline,
                first,
                second,
                height_requirement: i.height_requirement,
                inflection_requirement: i.inflection_requirement,
            },
        ),
        i.curve,
    );
    Derived {
        cleaned,
        first_derivative: first,
        second_derivative: second,
        baseline,
        trace_area: trace_area(cleaned, baseline) as i128,
        total_area: area_sum(peaks) as i128,
        peaks,
        components: identified(
            peaks,
            i.references,
            i.curve,
            i.retention_time_tolerance,
            i.glucose_unit_tolerance,
        ),
    }
}

/// What a new sample with the raw trace `raw` holds.
pub open spec fn initial_inputs(raw: Seq<Point2D>) -> Inputs {
    Inputs {
        raw,
        sample_type: SampleType::Data,
        data_range: None,
        smoothing_window: MEAN_FILTER_RANGE,
        include_unknowns: false,
        height_requirement: 0,
        inflection_requirement: 0,
        retention_time_tolerance: 0,
        glucose_unit_tolerance: 0,
        references: Seq::empty(),
        curve: None,
    }
}

/// The components that the filter lets through, in their order.
pub open spec fn shown(components: Seq<Component>, filter: ComponentFilter) -> Seq<Component>
    decreases components.len(),
{
    if components.len() == 0 {
        Seq::empty()
    } else {
        let front = shown(components.drop_last(), filter);
        if filter.admits(components.last()) {
            front.push(components.last())
        } else {
            front
        }
    }
}

/// The area of the first located peak among the components from position
/// `from` on, if there is one.
pub open spec fn first_located_area(components: Seq<Component>, from: int) -> Option<i128>
    decreases components.len() - from,
{
    if from < 0 || from >= components.len() {
        None
    } else {
        match components[from] {
            Component::Located(peak, _) => Some(peak.area),
            _ => first_located_area(components, from + 1),
        }
    }
}

/// The highest intensity among the first `n` points, or zero where none is
/// positive.
pub open spec fn highest(s: Seq<Point2D>, n: int) -> int
    decreases n,
{
    if n <= 0 {
        0
    } else if s[n - 1].y > highest(s, n - 1) {
        s[n - 1].y as int
    } else {
        highest(s, n - 1)
    }
}

/// A sample.
#[derive(Debug)]
pub struct Chromatography {
    raw_data: Vec<Point2D>,
    cleaned_data: Vec<Point2D>,
    first_derivative: Vec<Point2D>,
    second_derivative: Vec<Point2D>,
    baseline: Vec<Point2D>,
    trace_area: i128,
    total_area: i128,
    existing_components: Vec<Peak>,
    qualified_components: Vec<Component>,
    sample_type: SampleType,
    data_range: Option<TimeRange>,
    smoothing_window: usize,
    include_unknowns: bool,
    height_requirement: i64,
    inflection_requirement: i64,
    retention_time_tolerance: i64,
    glucose_unit_tolerance: i64,
    lipid_references: Vec<Reference>,
    glucose_transformer: Option<Spline>,
}

impl Chromatography {
    /// What the sample holds.
    pub closed spec fn inputs(&self) -> Inputs {
        Inputs {
            raw: self.raw_data@,
            sample_type: self.sample_type,
            data_range: self.data_range,
            smoothing_window: self.smoothing_window,
            include_unknowns: self.include_unknowns,
            height_requirement: self.height_requirement,
            inflection_requirement: self.inflection_requirement,
            retention_time_tolerance: self.retention_time_tolerance,
            glucose_unit_tolerance: self.glucose_unit_tolerance,
            references: self.lipid_references@,
            curve: held_curve(self.glucose_transformer),
        }
    }

    /// What the sample shows.
    pub closed spec fn derived(&self) -> Derived {
        Derived {
            cleaned: self.cleaned_data@,
            first_derivative: self.first_derivative@,
            second_derivative: self.second_derivative@,
            baseline: self.baseline@,
            trace_area: self.trace_area,
            total_area: self.total_area,
            peaks: self.existing_components@,
            components: self.qualified_components@,
        }
    }

    /// What the sample shows is what follows from what it holds.
    pub open spec fn wf(&self) -> bool {
        &&& inputs_ok(self.inputs())
        &&& self.derived() == derived_of(self.inputs())
    }

    /// Computes anew all that follows from what the sample holds.
    fn recompute(&mut self)
        requires
            inputs_ok(old(self).inputs()),
        ensures
            final(self).inputs() == old(self).inputs(),
            final(self).wf(),
    {
        let all = mean_filter(&self.raw_data, self.smoothing_window);
        let range = match self.sample_type {
            SampleType::Dex => Some(TimeRange { start: DEX_START, end: DEX_END }),
            _ => self.data_range,
        };
        let cleaned = match range {
            Some(window) => restrict(&all, &window),
            None => all,
        };
        let first = calculate_derivative(&cleaned);
        let second = calculate_derivative(&first);
        let baseline = calculate_baseline(&cleaned);
        let area = calculate_area(&cleaned, &baseline);
        let segments = calculate_components(
            &cleaned,
            &baseline,
            &first,
            &second,
            self.height_requirement,
            self.inflection_requirement,
        );
        let peaks = calibrate_peaks(&segments, self.glucose_transformer.as_ref());
        proof {
            lemma_calibrated_areas(segments@, held_curve(self.glucose_transformer));
            assert(cleaned@.len() * crate::segmenter::step_limit() <= usize::MAX
                * crate::segmenter::step_limit()) by (nonlinear_arith)
                requires
                    cleaned@.len() <= usize::MAX,
                    crate::segmenter::step_limit() >= 0,
            ;
        }
        let total = sum_areas(&peaks);
        let components = identify_components(
            &peaks,
            &self.lipid_references,
            self.glucose_transformer.as_ref(),
            self.retention_time_tolerance,
            self.glucose_unit_tolerance,
        );
        self.cleaned_data = cleaned;
        self.first_derivative = first;
        self.second_derivative = second;
        self.baseline = baseline;
        self.trace_area = area;
        self.total_area = total;
        self.existing_components = peaks;
        self.qualified_components = components;
    }

    /// A sample of the given rows with the settings of a new sample. Rows
    /// that cannot stand in a series are dropped.
    pub fn new(points: &Vec<Point2D>) -> (sample: Self)
        ensures
            sample.wf(),
            sample.inputs() == initial_inputs(admitted(points@)),
    {
        let mut sample = Chromatography {
            raw_data: sanitize(points),
            cleaned_data: Vec::new(),
            first_derivative: Vec::new(),
            second_derivative: Vec::new(),
            baseline: Vec::new(),
            trace_area: 0,
            total_area: 0,
            existing_components: Vec::new(),
            qualified_components: Vec::new(),
            sample_type: SampleType::Data,
            data_range: None,
            smoothing_window: MEAN_FILTER_RANGE,
            include_unknowns: false,
            height_requirement: 0,
            inflection_requirement: 0,
            retention_time_tolerance: 0,
            glucose_unit_tolerance: 0,
            lipid_references: Vec::new(),
            glucose_transformer: None,
        };
        assert(sample.inputs() == initial_inputs(admitted(points@)));
        sample.recompute();
        sample
    }

    /// Replaces the raw trace. Rows that cannot stand in a series are
    /// dropped.
    pub fn set_raw_data(&mut self, points: &Vec<Point2D>)
        requires
            old(self).wf(),
        ensures
            final(self).wf(),
            final(self).inputs() == (Inputs { raw: admitted(points@), ..old(self).inputs() }),
            admitted(points@) == old(self).inputs().raw ==> final(self).derived() == old(self).derived(),
    {
        self.raw_data = sanitize(points);
        self.recompute();
    }

    /// The smoothed trace within the window in force.
    pub fn get_data(&self) -> (data: Vec<Point2D>)
        ensures
            data@ == self.derived().cleaned,
    {
        let data = self.cleaned_data.clone();
        assert(data@ =~= self.cleaned_data@);
        data
    }

    /// The baseline under the smoothed trace.
    pub fn get_baseline(&self) -> (data: Vec<Point2D>)
        ensures
            data@ == self.derived().baseline,
    {
        let data = self.baseline.clone();
        assert(data@ =~= self.baseline@);
        data
    }

    /// Sum of the areas of the peaks within the window in force.
    pub fn get_total_area(&self) -> (area: i128)
        ensures
            area == self.derived().total_area,
    {
        self.total_area
    }

    /// Area between the smoothed trace and its baseline within the window
    /// in force.
    pub fn get_trace_area(&self) -> (area: i128)
        ensures
            area == self.derived().trace_area,
    {
        self.trace_area
    }

    /// The window of time chosen for the sample; where none was chosen,
    /// from zero to the time of the last raw point.
    pub fn get_data_range(&self) -> (range: TimeRange)
        ensures
            range == (match self.inputs().data_range {
                Some(chosen) => chosen,
                None => TimeRange {
                    start: 0,
                    end: if self.inputs().raw.len() > 0 {
                        self.inputs().raw.last().x
                    } else {
                        0
                    },
                },
            }),
    {
        match self.data_range {
            Some(chosen) => chosen,
            None => {
                let end = if self.raw_data.len() > 0 {
                    self.raw_data[self.raw_data.len() - 1].x
                } else {
                    0
                };
                TimeRange { start: 0, end }
            },
        }
    }

    /// Chooses the window of time. A dextran sample keeps the choice but
    /// stays held to the window of the ladder.
    pub fn set_data_range(&mut self, value: &TimeRange)
        requires
            old(self).wf(),
        ensures
            final(self).wf(),
            final(self).inputs() == (Inputs { data_range: Some(*value), ..old(self).inputs() }),
            Some(*value) == old(self).inputs().data_range ==> final(self).derived() == old(self).derived(),
    {
        self.data_range = Some(*value);
        self.recompute();
    }

    /// The highest intensity of the smoothed trace, or zero where none is
    /// positive.
    pub fn get_highest_point(&self) -> (top: i64)
        ensures
            top == highest(self.derived().cleaned, self.derived().cleaned.len() as int),
    {
        let mut top: i64 = 0;
        let mut k: usize = 0;
        while k < self.cleaned_data.len()
            invariant
                k <= self.cleaned_data.len(),
                top == highest(self.cleaned_data@, k as int),
            decreases self.cleaned_data.len() - k,
        {
            if self.cleaned_data[k].y > top {
                top = self.cleaned_data[k].y;
            }
            k += 1;
        }
        top
    }

    /// The peaks, before matching.
    pub fn get_unqualified_components(&self) -> (peaks: Vec<Peak>)
        ensures
            peaks@ == self.derived().peaks,
    {
        let peaks = self.existing_components.clone();
        assert(peaks@ =~= self.existing_components@);
        peaks
    }

    /// The components that the filter lets through, in order of location.
    pub fn get_components(&self, filter: &ComponentFilter) -> (components: Vec<Component>)
        ensures
            components@ == shown(self.derived().components, *filter),
    {
        let mut components: Vec<Component> = Vec::new();
        let mut k: usize = 0;
        while k < self.qualified_components.len()
            invariant
                k <= self.qualified_components.len(),
                components@ == shown(self.qualified_components@.take(k as int), *filter),
            decreases self.qualified_components.len() - k,
        {
            proof {
                assert(self.qualified_components@.take(k + 1).drop_last()
                    =~= self.qualified_components@.take(k as int));
            }
            let component = &self.qualified_components[k];
            let pass = match component {
                Component::Unknown(_) => filter.unknown,
                Component::Located(_, _) => filter.located,
                Component::Reference(_) => filter.reference,
            };
            if pass {
                components.push(component.clone());
            }
            k += 1;
        }
        assert(self.qualified_components@.take(self.qualified_components.len() as int)
            =~= self.qualified_components@);
        components
    }

    /// Replaces the reference table.
    pub fn set_lipid_references(&mut self, value: Vec<Reference>)
        requires
            old(self).wf(),
        ensures
            final(self).wf(),
            final(self).inputs() == (Inputs { references: value@, ..old(self).inputs() }),
            value@ == old(self).inputs().references ==> final(self).derived() == old(self).derived(),
    {
        self.lipid_references = value;
        self.recompute();
    }

    /// Whether unmatched peaks are to be shown.
    pub fn get_include_unknowns(&self) -> (show: bool)
        ensures
            show == self.inputs().include_unknowns,
    {
        self.include_unknowns
    }

    pub fn set_include_unknowns(&mut self, show: &bool)
        requires
            old(self).wf(),
        ensures
            final(self).wf(),
            final(self).inputs() == (Inputs { include_unknowns: *show, ..old(self).inputs() }),
            final(self).derived() == old(self).derived(),
    {
        self.include_unknowns = *show;
        self.recompute();
    }

    /// Sets the half-width of the smoothing window.
    pub fn set_smoothing_window(&mut self, value: usize)
        requires
            old(self).wf(),
        ensures
            final(self).wf(),
            final(self).inputs() == (Inputs { smoothing_window: value, ..old(self).inputs() }),
            value == old(self).inputs().smoothing_window ==> final(self).derived() == old(self).derived(),
    {
        self.smoothing_window = value;
        self.recompute();
    }

    pub fn set_height_requirement(&mut self, value: &i64)
        requires
            old(self).wf(),
        ensures
            final(self).wf(),
            final(self).inputs() == (Inputs { height_requirement: *value, ..old(self).inputs() }),
            *value == old(self).inputs().height_requirement ==> final(self).derived() == old(self).derived(),
    {
        self.height_requirement = *value;
        self.recompute();
    }

    pub fn set_inflection_requirement(&mut self, value: &i64)
        requires
            old(self).wf(),
        ensures
            final(self).wf(),
            final(self).inputs() == (Inputs {
                inflection_requirement: *value,
                ..old(self).inputs()
            }),
            *value == old(self).inputs().inflection_requirement ==> final(self).derived() == old(self).derived(),
    {
        self.inflection_requirement = *value;
        self.recompute();
    }

    pub fn set_retention_time_tolerance(&mut self, value: &i64)
        requires
            old(self).wf(),
        ensures
            final(self).wf(),
            final(self).inputs() == (Inputs {
                retention_time_tolerance: *value,
                ..old(self).inputs()
            }),
            *value == old(self).inputs().retention_time_tolerance ==> final(self).derived()
                == old(self).derived(),
    {
        self.retention_time_tolerance = *value;
        self.recompute();
    }

    pub fn set_glucose_unit_tolerance(&mut self, value: &i64)
        requires
            old(self).wf(),
        ensures
            final(self).wf(),
            final(self).inputs() == (Inputs {
                glucose_unit_tolerance: *value,
                ..old(self).inputs()
            }),
            *value == old(self).inputs().glucose_unit_tolerance ==> final(self).derived() == old(self).derived(),
    {
        self.glucose_unit_tolerance = *value;
        self.recompute();
    }

    /// The knots of the calibration that this sample gives as a dextran
    /// ladder.
    pub fn get_glucose_ladder(&self) -> (knots: Vec<Point2D>)
        ensures
            knots@ == ladder_of(self.derived().peaks),
    {
        glucose_ladder(&self.existing_components)
    }

    /// The calibration curve that this sample gives as a dextran ladder,
    /// from segments fitted to its knots; none where they do not fit.
    pub fn get_glucose_transformer(&self, cubics: &Vec<Cubic>) -> (curve: Option<Spline>)
        ensures
            curve is Some <==> acceptable_fit(ladder_of(self.derived().peaks), cubics@),
            curve is Some ==> curve.unwrap()@ == (Curve {
                knots: ladder_of(self.derived().peaks),
                cubics: cubics@,
            }),
    {
        let knots = glucose_ladder(&self.existing_components);
        Spline::new(&knots, cubics)
    }

    /// Sets or removes the calibration curve of the session.
    pub fn set_glucose_transformer(&mut self, transformer: &Option<Spline>)
        requires
            old(self).wf(),
            transformer is Some ==> transformer.unwrap().wf(),
        ensures
            final(self).wf(),
            final(self).inputs() == (Inputs {
                curve: held_curve(*transformer),
                ..old(self).inputs()
            }),
            held_curve(*transformer) == old(self).inputs().curve ==> final(self).derived() == old(self).derived(),
    {
        self.glucose_transformer = match transformer {
            Some(spline) => Some(spline.clone()),
            None => None,
        };
        self.recompute();
    }

    pub fn get_sample_type(&self) -> (role: SampleType)
        ensures
            role == self.inputs().sample_type,
    {
        self.sample_type
    }

    /// Sets the role. A dextran sample is held to the window of the ladder,
    /// which also becomes its chosen window.
    pub fn set_sample_type(&mut self, value: &SampleType)
        requires
            old(self).wf(),
        ensures
            final(self).wf(),
            final(self).inputs() == (Inputs {
                sample_type: *value,
                data_range: if *value is Dex {
                    Some(TimeRange { start: DEX_START, end: DEX_END })
                } else {
                    old(self).inputs().data_range
                },
                ..old(self).inputs()
            }),
            final(self).inputs() == old(self).inputs() ==> final(self).derived() == old(self).derived(),
    {
        self.sample_type = *value;
        match value {
            SampleType::Dex => {
                self.data_range = Some(TimeRange { start: DEX_START, end: DEX_END });
            },
            _ => {},
        }
        self.recompute();
    }

    /// The area that a standard lends to the conversion of areas into
    /// concentrations: that of its first located peak, the first peak in
    /// order of location that matches a reference. A sample that is no
    /// standard, or has no located peak, lends none.
    pub fn get_standard_area(&self) -> (area: Option<i128>)
        ensures
            area == (if self.inputs().sample_type is Standard {
                first_located_area(self.derived().components, 0)
            } else {
                None
            }),
    {
        match self.sample_type {
            SampleType::Standard => {
                let mut k: usize = 0;
                while k < self.qualified_components.len()
                    invariant
                        k <= self.qualified_components.len(),
                        self.sample_type is Standard,
                        first_located_area(self.qualified_components@, 0) == first_located_area(
                            self.qualified_components@,
                            k as int,
                        ),
                    decreases self.qualified_components.len() - k,
                {
                    let component = &self.qualified_components[k];
                    assert(*component == self.qualified_components@[k as int]);
                    match component {
                        Component::Located(peak, _) => {
                            assert(first_located_area(self.qualified_components@, k as int)
                                == Some(peak.area));
                            return Some(peak.area);
                        },
                        _ => {
                            assert(first_located_area(self.qualified_components@, k as int)
                                == first_located_area(self.qualified_components@, k + 1));
                        },
                    }
                    k += 1;
                }
                None
            },
            _ => None,
        }
    }
}

impl Clone for Chromatography {
    fn clone(&self) -> (copy: Self)
        ensures
            copy.inputs() == self.inputs(),
            copy.derived() == self.derived(),
    {
        let copy = Chromatography {
            raw_data: self.raw_data.clone(),
            cleaned_data: self.cleaned_data.clone(),
            first_derivative: self.first_derivative.clone(),
            second_derivative: self.second_derivative.clone(),
            baseline: self.baseline.clone(),
            trace_area: self.trace_area,
            total_area: self.total_area,
            existing_components: self.existing_components.clone(),
            qualified_components: clone_components(&self.qualified_components),
            sample_type: self.sample_type,
            data_range: self.data_range,
            smoothing_window: self.smoothing_window,
            include_unknowns: self.include_unknowns,
            height_requirement: self.height_requirement,
            inflection_requirement: self.inflection_requirement,
            retention_time_tolerance: self.retention_time_tolerance,
            glucose_unit_tolerance: self.glucose_unit_tolerance,
            lipid_references: clone_references(&self.lipid_references),
            glucose_transformer: match &self.glucose_transformer {
                Some(spline) => Some(spline.clone()),
                None => None,
            },
        };
        assert(copy.raw_data@ =~= self.raw_data@);
        assert(copy.cleaned_data@ =~= self.cleaned_data@);
        assert(copy.first_derivative@ =~= self.first_derivative@);
        assert(copy.second_derivative@ =~= self.second_derivative@);
        assert(copy.baseline@ =~= self.baseline@);
        assert(copy.existing_components@ =~= self.existing_components@);
        copy
    }
}

impl Default for Chromatography {
    /// A sample without a trace.
    fn default() -> (sample: Self)
        ensures
            sample.wf(),
            sample.inputs() == initial_inputs(Seq::empty()),
    {
        let none: Vec<Point2D> = Vec::new();
        assert(admitted(none@) =~= Seq::<Point2D>::empty());
        Chromatography::new(&none)
    }
}

/// The factor that turns the area of a component into a concentration:
/// `2.5 * dilution / (injected_volume * standard_peak_area)`, all in raw
/// steps, rounded toward zero. There is none where the volume or the area
/// of the standard is zero.
pub open spec fn concentration_multiplier(
    standard_peak_area: int,
    injected_volume: int,
    dilution: int,
) -> Option<int> {
    if standard_peak_area == 0 || injected_volume == 0 {
        None
    } else {
        Some(
            quotient(
                5_000_000_000_000 * dilution,
                (2 * injected_volume) * standard_peak_area,
            ),
        )
    }
}

/// The concentration of a component of the given area: the area times the
/// multiplier, in raw steps, rounded toward zero.
pub open spec fn concentration(area: int, multiplier: int) -> int {
    trunc_div(area * multiplier, 1_000_000)
}

impl Chromatography {
    /// Computes the factor that turns areas into concentrations from the area
    /// of the standard's peak, the injected volume and the dilution.
    pub fn get_concentration_multiplier(
        standard_peak_area: i128,
        injected_volume: i64,
        dilution: i64,
    ) -> (multiplier: Option<i128>)
        ensures
            multiplier is Some <==> standard_peak_area != 0 && injected_volume != 0,
            multiplier is Some ==> Some(multiplier.unwrap() as int) == concentration_multiplier(
                standard_peak_area as int,
                injected_volume as int,
                dilution as int,
            ),
    {
        if standard_peak_area == 0 || injected_volume == 0 {
            return None;
        }
        let top: i128 = 5_000_000_000_000 * (dilution as i128);
        let twice: i128 = 2 * (injected_volume as i128);
        assert(twice * standard_peak_area != 0) by (nonlinear_arith)
            requires
                twice != 0,
                standard_peak_area != 0,
        ;
        match twice.checked_mul(standard_peak_area) {
            Some(bottom) => Some(divide(top, bottom)),
            None => {
                proof {
                    lemma_quotient_small(top as int, twice * standard_peak_area);
                }
                Some(0)
            },
        }
    }

    /// Turns the area of a component into a concentration. There is none where
    /// the product is beyond what can be held.
    pub fn get_concentration(area: i128, multiplier: i128) -> (r: Option<i128>)
        ensures
            r is Some <==> i128::MIN <= area * multiplier <= i128::MAX,
            r is Some ==> r.unwrap() == concentration(area as int, multiplier as int),
    {
        match area.checked_mul(multiplier) {
            Some(product) => Some(product / 1_000_000),
            None => None,
        }
    }
}

/// Two samples that hold the same show the same: nothing that a sample
/// shows depends on how it came to hold what it holds. A setter that is
/// handed the value already held leaves what the sample holds as it is, and
/// so what it shows.
pub proof fn lemma_setting_again_changes_nothing(before: Chromatography, after: Chromatography)
    requires
        before.wf(),
        after.wf(),
        after.inputs() == before.inputs(),
    ensures
        after.derived() == before.derived(),
{
}

} // verus!
