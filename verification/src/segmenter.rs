//! Segmentation of a trace into peaks, and the area between a trace and
//! its baseline.
//!
//! The trace is walked once, step by step. Every step adds its trapezoid
//! to the peak being gathered. Where the first derivative is known at both
//! ends of a step, the step is tested for a valley and for a summit; where
//! the second derivative is known at both ends too, it is tested for a
//! shoulder. A peak is closed at a valley only if it has a summit higher
//! than required, and one that has such a summit when the trace ends is
//! closed at the last point. Each peak begins where the one before it ends.

use vstd::prelude::*;
use crate::component::{all_calibrated, fresh_peak, Peak, PeakKind};
use crate::spline::Curve;
use crate::fixed::{
    abs_diff,
    distance,
    lemma_product_bound,
    lemma_trunc_div_bounds,
    magnitude,
    trunc_div,
    COORD_LIMIT,
};
use crate::series::{admissible, is_admissible, valid_series};
use crate::vector::Point2D;

verus! {

/// The baseline has a point within the limits for each point of the series.
pub open spec fn aligned(s: Seq<Point2D>, b: Seq<Point2D>) -> bool {
    &&& b.len() == s.len()
    &&& forall|k: int| 0 <= k < b.len() ==> admissible(#[trigger] b[k])
}

/// Tells whether the baseline has a point within the limits for each
/// point of the series.
pub fn is_aligned(data: &Vec<Point2D>, baseline: &Vec<Point2D>) -> (r: bool)
    ensures
        r == aligned(data@, baseline@),
{
    if baseline.len() != data.len() {
        return false;
    }
    let mut k: usize = 0;
    while k < baseline.len()
        invariant
            k <= baseline.len(),
            baseline.len() == data.len(),
            forall|n: int| 0 <= n < k ==> admissible(#[trigger] baseline[n]),
        decreases baseline.len() - k,
    {
        if !is_admissible(&baseline[k]) {
            return false;
        }
        k += 1;
    }
    true
}

/// Intensity of point `i` above the baseline under it.
pub open spec fn height_at(s: Seq<Point2D>, b: Seq<Point2D>, i: int) -> int {
    s[i].y - b[i].y
}

/// Area between trace and baseline over the step that ends at point `i`,
/// rounded toward zero.
pub open spec fn trapezoid(s: Seq<Point2D>, b: Seq<Point2D>, i: int) -> int {
    trunc_div((s[i].x - s[i - 1].x) * (height_at(s, b, i - 1) + height_at(s, b, i)), 2_000_000)
}

/// Area between trace and baseline over the first `n` points.
pub open spec fn area_steps(s: Seq<Point2D>, b: Seq<Point2D>, n: int) -> int
    decreases n,
{
    if n <= 1 {
        0
    } else {
        area_steps(s, b, n - 1) + trapezoid(s, b, n - 1)
    }
}

/// Area between the whole trace and its baseline.
pub open spec fn trace_area(s: Seq<Point2D>, b: Seq<Point2D>) -> int {
    area_steps(s, b, s.len() as int)
}

/// No step holds more area than this.
pub open spec fn step_limit() -> int {
    4_000_000_000_000_000_000
}

/// The area of a step is bounded, and is not negative where the trace does
/// not dip under the baseline at either end of the step.
pub proof fn lemma_trapezoid(s: Seq<Point2D>, b: Seq<Point2D>, i: int)
    requires
        valid_series(s),
        aligned(s, b),
        1 <= i < s.len(),
    ensures
        -step_limit() <= trapezoid(s, b, i) <= step_limit(),
        height_at(s, b, i - 1) >= 0 && height_at(s, b, i) >= 0 ==> trapezoid(s, b, i) >= 0,
{
    assert(admissible(s[i]) && admissible(s[i - 1]) && admissible(b[i]) && admissible(b[i - 1]));
    assert(s[i - 1].x < s[i].x);
    let width = s[i].x - s[i - 1].x;
    let heights = height_at(s, b, i - 1) + height_at(s, b, i);
    lemma_product_bound(width, heights, 2_000_000_000_000, 4_000_000_000_000);
    lemma_trunc_div_bounds(width * heights, 2_000_000);
    if height_at(s, b, i - 1) >= 0 && height_at(s, b, i) >= 0 {
        assert(width * heights >= 0) by (nonlinear_arith)
            requires
                width >= 0,
                heights >= 0,
        ;
    }
}

/// The area of a trace that nowhere dips under its baseline is not negative.
pub proof fn lemma_area_not_negative(s: Seq<Point2D>, b: Seq<Point2D>, n: int)
    requires
        valid_series(s),
        aligned(s, b),
        0 <= n <= s.len(),
        forall|k: int| 0 <= k < s.len() ==> b[k].y <= s[k].y,
    ensures
        area_steps(s, b, n) >= 0,
    decreases n,
{
    if n > 1 {
        lemma_area_not_negative(s, b, n - 1);
        lemma_trapezoid(s, b, n - 1);
    }
}

/// Twice the exact area between trace and baseline over the first `n`
/// points, in raw steps of time times raw steps of intensity.
pub open spec fn exact_twice_area(s: Seq<Point2D>, b: Seq<Point2D>, n: int) -> int
    decreases n,
{
    if n <= 1 {
        0
    } else {
        exact_twice_area(s, b, n - 1) + (s[n - 1].x - s[n - 2].x) * (height_at(s, b, n - 2)
            + height_at(s, b, n - 1))
    }
}

/// The area is that of the trapezoids under the trace, to within one raw
/// step for each trapezoid.
pub proof fn lemma_area_is_trapezoid_sum(s: Seq<Point2D>, b: Seq<Point2D>, n: int)
    requires
        valid_series(s),
        aligned(s, b),
        1 <= n <= s.len(),
    ensures
        magnitude(exact_twice_area(s, b, n) - 2_000_000 * area_steps(s, b, n)) <= 2_000_000 * (n
            - 1),
    decreases n,
{
    if n > 1 {
        lemma_area_is_trapezoid_sum(s, b, n - 1);
        let exact = (s[n - 1].x - s[n - 2].x) * (height_at(s, b, n - 2) + height_at(s, b, n - 1));
        lemma_trunc_div_bounds(exact, 2_000_000);
    }
}

/// The trace is a symmetric triangular pulse over a zero baseline: `2 * half`
/// steps of equal `width`, over which the intensity climbs from zero by
/// `climb` a step to the apex and falls back to zero alike.
pub open spec fn triangular_pulse(
    s: Seq<Point2D>,
    b: Seq<Point2D>,
    half: int,
    width: int,
    climb: int,
) -> bool {
    &&& half >= 1
    &&& width > 0
    &&& climb >= 0
    &&& s.len() == 2 * half + 1
    &&& b.len() == s.len()
    &&& forall|k: int|
        0 <= k < s.len() ==> (#[trigger] s[k]).x == s[0].x + k * width && s[k].y == climb * (
        if k <= half {
            k
        } else {
            2 * half - k
        }) && b[k].y == 0
}

proof fn lemma_pulse_steps(
    s: Seq<Point2D>,
    b: Seq<Point2D>,
    half: int,
    width: int,
    climb: int,
    n: int,
)
    requires
        triangular_pulse(s, b, half, width, climb),
        1 <= n <= s.len(),
    ensures
        n <= half + 1 ==> exact_twice_area(s, b, n) == (width * climb) * ((n - 1) * (n - 1)),
        n > half + 1 ==> exact_twice_area(s, b, n) == (width * climb) * (half * half + 2 * half
            * (n - 1 - half) - (n - 1 - half) * (n - 1 - half)),
    decreases n,
{
    if n == 1 {
        assert((width * climb) * ((n - 1) * (n - 1)) == 0) by (nonlinear_arith)
            requires
                n == 1,
        ;
    } else {
        lemma_pulse_steps(s, b, half, width, climb, n - 1);
        let k = n - 1;
        let before = exact_twice_area(s, b, n - 1);
        let step = (s[k].x - s[k - 1].x) * (height_at(s, b, k - 1) + height_at(s, b, k));
        assert(s[k].x - s[k - 1].x == width) by (nonlinear_arith)
            requires
                s[k].x == s[0].x + k * width,
                s[k - 1].x == s[0].x + (k - 1) * width,
        ;
        if n <= half + 1 {
            assert(height_at(s, b, k - 1) + height_at(s, b, k) == climb * (2 * k - 1))
                by (nonlinear_arith)
                requires
                    height_at(s, b, k - 1) == climb * (k - 1),
                    height_at(s, b, k) == climb * k,
            ;
            assert(before + width * (climb * (2 * k - 1)) == (width * climb) * (k * k))
                by (nonlinear_arith)
                requires
                    before == (width * climb) * ((k - 1) * (k - 1)),
            ;
            assert(exact_twice_area(s, b, n) == before + step);
            assert(step == width * (climb * (2 * k - 1)));
        } else {
            let j = k - half;
            assert(height_at(s, b, k - 1) + height_at(s, b, k) == climb * (2 * half - 2 * j + 1))
                by (nonlinear_arith)
                requires
                    height_at(s, b, k - 1) == climb * (2 * half - (k - 1)),
                    height_at(s, b, k) == climb * (2 * half - k),
                    j == k - half,
            ;
            assert(before == (width * climb) * (half * half + 2 * half * (j - 1) - (j - 1) * (j
                - 1))) by (nonlinear_arith)
                requires
                    j == k - half,
                    j >= 1,
                    j == 1 ==> before == (width * climb) * ((k - 1) * (k - 1)),
                    j > 1 ==> before == (width * climb) * (half * half + 2 * half * (k - 1 - half)
                        - (k - 1 - half) * (k - 1 - half)),
            ;
            assert(before + width * (climb * (2 * half - 2 * j + 1)) == (width * climb) * (half
                * half + 2 * half * j - j * j)) by (nonlinear_arith)
                requires
                    before == (width * climb) * (half * half + 2 * half * (j - 1) - (j - 1) * (j
                        - 1)),
            ;
            assert(exact_twice_area(s, b, n) == before + step);
            assert(step == width * (climb * (2 * half - 2 * j + 1)));
        }
    }
}

/// The area of a symmetric triangular pulse over a zero baseline is half
/// its base times its height, to within one raw step for each trapezoid.
pub proof fn lemma_triangular_pulse_area(
    s: Seq<Point2D>,
    b: Seq<Point2D>,
    half: int,
    width: int,
    climb: int,
)
    requires
        valid_series(s),
        aligned(s, b),
        triangular_pulse(s, b, half, width, climb),
    ensures
        exact_twice_area(s, b, s.len() as int) == (2 * half * width) * (half * climb),
        magnitude((2 * half * width) * (half * climb) - 2_000_000 * trace_area(s, b)) <= 2_000_000
            * (2 * half),
        trace_area(s, b) >= 0,
{
    lemma_pulse_steps(s, b, half, width, climb, 2 * half + 1);
    lemma_area_is_trapezoid_sum(s, b, 2 * half + 1);
    assert((width * climb) * (half * half + 2 * half * half - half * half) == (2 * half * width)
        * (half * climb)) by (nonlinear_arith);
    assert forall|k: int| 0 <= k < s.len() implies b[k].y <= s[k].y by {
        assert(s[k].y == climb * (if k <= half {
            k
        } else {
            2 * half - k
        }));
        assert(climb * (if k <= half {
            k
        } else {
            2 * half - k
        }) >= 0) by (nonlinear_arith)
            requires
                climb >= 0,
                0 <= k <= 2 * half,
        ;
    }
    lemma_area_not_negative(s, b, s.len() as int);
}

/// Area of the step that ends at point `i`.
fn step_area(data: &Vec<Point2D>, baseline: &Vec<Point2D>, i: usize) -> (r: i128)
    requires
        valid_series(data@),
        aligned(data@, baseline@),
        1 <= i < data.len(),
    ensures
        r == trapezoid(data@, baseline@, i as int),
        -step_limit() <= r <= step_limit(),
{
    proof {
        lemma_trapezoid(data@, baseline@, i as int);
        assert(admissible(data@[i as int]) && admissible(data@[i - 1]));
        assert(admissible(baseline@[i as int]) && admissible(baseline@[i - 1]));
        assert(data@[i - 1].x < data@[i as int].x);
    }
    let width: i128 = data[i].x as i128 - data[i - 1].x as i128;
    let left: i128 = data[i - 1].y as i128 - baseline[i - 1].y as i128;
    let right: i128 = data[i].y as i128 - baseline[i].y as i128;
    proof {
        lemma_product_bound(width as int, left + right, 2_000_000_000_000, 4_000_000_000_000);
    }
    (width * (left + right)) / 2_000_000
}

/// Intensity of point `i` above the baseline under it.
fn height_above(data: &Vec<Point2D>, baseline: &Vec<Point2D>, i: usize) -> (r: i64)
    requires
        valid_series(data@),
        aligned(data@, baseline@),
        i < data.len(),
    ensures
        r == height_at(data@, baseline@, i as int),
{
    assert(admissible(data@[i as int]) && admissible(baseline@[i as int]));
    data[i].y - baseline[i].y
}

/// Integrates a trace over its baseline by the trapezoid rule.
pub fn calculate_area(data: &Vec<Point2D>, baseline: &Vec<Point2D>) -> (area: i128)
    requires
        valid_series(data@),
        aligned(data@, baseline@),
    ensures
        area == trace_area(data@, baseline@),
        (forall|k: int| 0 <= k < data.len() ==> baseline[k].y <= data[k].y) ==> area >= 0,
{
    let mut area: i128 = 0;
    if data.len() == 0 {
        return area;
    }
    let mut i: usize = 1;
    while i < data.len()
        invariant
            1 <= i <= data.len(),
            valid_series(data@),
            aligned(data@, baseline@),
            area == area_steps(data@, baseline@, i as int),
            -(i * step_limit()) <= area <= i * step_limit(),
        decreases data.len() - i,
    {
        let step = step_area(data, baseline, i);
        area = area + step;
        i += 1;
    }
    proof {
        if forall|k: int| 0 <= k < data.len() ==> baseline[k].y <= data[k].y {
            lemma_area_not_negative(data@, baseline@, data.len() as int);
        }
    }
    area
}

/// What the segmentation reads.
pub struct Trace {
    /// The smoothed series.
    pub series: Seq<Point2D>,
    /// Its baseline, point for point.
    pub baseline: Seq<Point2D>,
    /// Its first derivative: entry `j` belongs to point `j + 1`.
    pub first: Seq<Point2D>,
    /// Its second derivative: entry `j` belongs to point `j + 2`.
    pub second: Seq<Point2D>,
    /// Height that the summit of a peak must exceed.
    pub height_requirement: i64,
    /// Change of the second derivative over a step that arms the shoulder
    /// test.
    pub inflection_requirement: i64,
}

/// The state of the walk.
pub struct Scan {
    /// Peaks closed so far.
    pub peaks: Seq<Peak>,
    /// The peak being gathered.
    pub current: Peak,
    /// The peak being gathered has a summit higher than required.
    pub found_maximum: bool,
}

/// `peak` with `extra` more area.
pub open spec fn with_area(peak: Peak, extra: int) -> Peak {
    Peak {
        start: peak.start,
        retention_point: peak.retention_point,
        end: peak.end,
        height: peak.height,
        area: (peak.area + extra) as i128,
        gu: peak.gu,
        kind: peak.kind,
    }
}

/// `peak` with its apex at `apex`, of height `height`.
pub open spec fn with_apex(peak: Peak, apex: Point2D, height: int) -> Peak {
    Peak {
        start: peak.start,
        retention_point: apex,
        end: peak.end,
        height: height as i64,
        area: peak.area,
        gu: peak.gu,
        kind: peak.kind,
    }
}

/// `peak` closed at `end`.
pub open spec fn closed_at(peak: Peak, end: Point2D, kind: PeakKind) -> Peak {
    Peak {
        start: peak.start,
        retention_point: peak.retention_point,
        end,
        height: peak.height,
        area: peak.area,
        gu: peak.gu,
        kind,
    }
}

/// The first derivative is known at both ends of the step that ends at `i`.
pub open spec fn slopes_known(t: Trace, i: int) -> bool {
    2 <= i && i - 1 < t.first.len()
}

/// The second derivative is known at both ends of the step that ends at `i`.
pub open spec fn curvatures_known(t: Trace, i: int) -> bool {
    3 <= i && i - 2 < t.second.len() && slopes_known(t, i)
}

/// The step that ends at `i` crosses a valley: the slope goes from not
/// rising to not falling.
pub open spec fn is_valley(t: Trace, i: int) -> bool {
    slopes_known(t, i) && t.first[i - 2].y <= 0 && t.first[i - 1].y >= 0
}

/// The step that ends at `i` crosses a summit: the slope goes from not
/// falling to not rising, and the step is no valley.
pub open spec fn is_summit(t: Trace, i: int) -> bool {
    slopes_known(t, i) && !is_valley(t, i) && t.first[i - 2].y >= 0 && t.first[i - 1].y <= 0
}

/// The walk after the area of the step that ends at `i` has been added.
pub open spec fn after_area(t: Trace, st: Scan, i: int) -> Scan {
    Scan {
        peaks: st.peaks,
        current: with_area(st.current, trapezoid(t.series, t.baseline, i)),
        found_maximum: st.found_maximum,
    }
}

/// The walk after the step that ends at `i` has been tested for a valley
/// and a summit.
///
/// At a valley, a peak that has found its summit is closed at the point
/// where the step begins and the next peak begins there; one that has not
/// gives its area to the peak closed last, which then ends there, and the
/// gathering starts over. At a summit the higher end of the step becomes
/// the apex, with its height above the baseline; once the peak has a summit
/// higher than required, only a higher one takes its place.
pub open spec fn after_extremum(t: Trace, st: Scan, i: int) -> Scan {
    let prev = t.series[i - 1];
    let next = t.series[i];
    if is_valley(t, i) {
        if st.found_maximum {
            Scan {
                peaks: st.peaks.push(closed_at(st.current, prev, PeakKind::Apex)),
                current: fresh_peak(prev),
                found_maximum: false,
            }
        } else if st.peaks.len() > 0 {
            let last = st.peaks.last();
            Scan {
                peaks: st.peaks.update(
                    st.peaks.len() - 1,
                    closed_at(with_area(last, st.current.area as int), prev, last.kind),
                ),
                current: fresh_peak(prev),
                found_maximum: false,
            }
        } else {
            Scan { peaks: st.peaks, current: fresh_peak(prev), found_maximum: false }
        }
    } else if is_summit(t, i) {
        let at = if prev.y > next.y {
            i - 1
        } else {
            i
        };
        let height = height_at(t.series, t.baseline, at);
        Scan {
            peaks: st.peaks,
            current: if !st.found_maximum || height > st.current.height {
                with_apex(st.current, t.series[at], height)
            } else {
                st.current
            },
            found_maximum: st.found_maximum || height > t.height_requirement,
        }
    } else {
        st
    }
}

/// The shoulder test is armed at the step that ends at `i`: the second
/// derivative changes by at least the inflection requirement over the step,
/// and the trace stands higher above the baseline than a peak must.
pub open spec fn shoulder_armed(t: Trace, i: int) -> bool {
    &&& curvatures_known(t, i)
    &&& distance(t.second[i - 3].y as int, t.second[i - 2].y as int) >= t.inflection_requirement
    &&& height_at(t.series, t.baseline, i - 1) > t.height_requirement
}

/// An inflection on a rising flank: the second derivative goes from not
/// positive to not negative while the trace does not fall.
pub open spec fn rising_inflection(t: Trace, i: int) -> bool {
    shoulder_armed(t, i) && t.second[i - 3].y <= 0 && t.second[i - 2].y >= 0 && t.first[i - 2].y >= 0
}

/// An inflection on a falling flank: the second derivative goes from not
/// negative to not positive while the trace does not rise.
pub open spec fn falling_inflection(t: Trace, i: int) -> bool {
    shoulder_armed(t, i) && t.second[i - 3].y >= 0 && t.second[i - 2].y <= 0 && t.first[i - 2].y <= 0
}

/// The walk after a rising inflection at the end of the step: the peak is
/// closed there as a shoulder, with its apex there, and the next begins
/// without a summit.
pub open spec fn after_rising(t: Trace, st: Scan, i: int) -> Scan {
    let next = t.series[i];
    if rising_inflection(t, i) {
        Scan {
            peaks: st.peaks.push(
                closed_at(
                    with_apex(st.current, next, height_at(t.series, t.baseline, i)),
                    next,
                    PeakKind::Shoulder,
                ),
            ),
            current: fresh_peak(next),
            found_maximum: false,
        }
    } else {
        st
    }
}

/// The walk after a falling inflection at the end of the step: the peak is
/// closed there as a shoulder, and the next begins with its apex there,
/// which counts as its summit where it stands higher than required.
pub open spec fn after_falling(t: Trace, st: Scan, i: int) -> Scan {
    let next = t.series[i];
    if falling_inflection(t, i) {
        Scan {
            peaks: st.peaks.push(closed_at(st.current, next, PeakKind::Shoulder)),
            current: with_apex(fresh_peak(next), next, height_at(t.series, t.baseline, i)),
            found_maximum: height_at(t.series, t.baseline, i) > t.height_requirement,
        }
    } else {
        st
    }
}

/// The walk after the whole step that ends at `i`.
pub open spec fn scan_step(t: Trace, st: Scan, i: int) -> Scan {
    after_falling(t, after_rising(t, after_extremum(t, after_area(t, st, i), i), i), i)
}

/// The walk after the first `n` points.
pub open spec fn scan_upto(t: Trace, n: int) -> Scan
    decreases n,
{
    if n <= 1 {
        Scan { peaks: Seq::empty(), current: fresh_peak(t.series[0]), found_maximum: false }
    } else {
        scan_step(t, scan_upto(t, n - 1), n - 1)
    }
}

/// The peaks of a trace: those closed during the walk and, if the peak
/// gathered last has found its summit, that peak closed at the last point.
pub open spec fn segmented(t: Trace) -> Seq<Peak> {
    if t.series.len() == 0 {
        Seq::empty()
    } else {
        let st = scan_upto(t, t.series.len() as int);
        if st.found_maximum {
            st.peaks.push(closed_at(st.current, t.series.last(), PeakKind::Apex))
        } else {
            st.peaks
        }
    }
}

/// Each peak closed with an apex of its own stands higher than required,
/// and each peak begins where the peak before it ends.
pub open spec fn orderly(peaks: Seq<Peak>, height_requirement: i64) -> bool {
    &&& forall|k: int|
        0 <= k < peaks.len() && (#[trigger] peaks[k]).kind is Apex ==> peaks[k].height
            > height_requirement
    &&& forall|k: int| 0 <= k < peaks.len() - 1 ==> #[trigger] adjoins(peaks, k)
}

/// Peak `k + 1` begins where peak `k` ends.
pub open spec fn adjoins(peaks: Seq<Peak>, k: int) -> bool {
    peaks[k].end == peaks[k + 1].start
}

/// The walk is in order: its closed peaks are orderly, the peak being
/// gathered begins where the last closed one ends, and stands higher than
/// required where it has found its summit.
pub open spec fn walk_in_order(t: Trace, st: Scan) -> bool {
    &&& orderly(st.peaks, t.height_requirement)
    &&& st.peaks.len() > 0 ==> st.current.start == st.peaks.last().end
    &&& st.found_maximum ==> st.current.height > t.height_requirement
}

proof fn lemma_orderly_push(peaks: Seq<Peak>, peak: Peak, height_requirement: i64)
    requires
        orderly(peaks, height_requirement),
        peaks.len() > 0 ==> peaks.last().end == peak.start,
        peak.kind is Apex ==> peak.height > height_requirement,
    ensures
        orderly(peaks.push(peak), height_requirement),
{
    let now = peaks.push(peak);
    assert forall|k: int| 0 <= k < now.len() - 1 implies #[trigger] adjoins(now, k) by {
        if k < peaks.len() - 1 {
            assert(adjoins(peaks, k));
        }
    }
    assert forall|k: int| 0 <= k < now.len() && (#[trigger] now[k]).kind is Apex implies now[k].height
        > height_requirement by {
        if k < peaks.len() {
            assert(peaks[k].kind is Apex);
        }
    }
}

proof fn lemma_orderly_replace_last(peaks: Seq<Peak>, peak: Peak, height_requirement: i64)
    requires
        orderly(peaks, height_requirement),
        peaks.len() > 0,
        peak.start == peaks.last().start,
        peak.kind == peaks.last().kind,
        peak.height == peaks.last().height,
    ensures
        orderly(peaks.update(peaks.len() - 1, peak), height_requirement),
{
    let now = peaks.update(peaks.len() - 1, peak);
    assert forall|k: int| 0 <= k < now.len() - 1 implies #[trigger] adjoins(now, k) by {
        assert(adjoins(peaks, k));
    }
    assert forall|k: int| 0 <= k < now.len() && (#[trigger] now[k]).kind is Apex implies now[k].height
        > height_requirement by {
        assert(peaks[k].kind is Apex);
    }
}

proof fn lemma_step_in_order(t: Trace, st: Scan, i: int)
    requires
        valid_series(t.series),
        aligned(t.series, t.baseline),
        1 <= i < t.series.len(),
        walk_in_order(t, st),
    ensures
        walk_in_order(t, scan_step(t, st, i)),
{
    assert(admissible(t.series[i]) && admissible(t.series[i - 1]));
    assert(admissible(t.baseline[i]) && admissible(t.baseline[i - 1]));
    let req = t.height_requirement;
    let prev = t.series[i - 1];
    let next = t.series[i];
    let st1 = after_area(t, st, i);
    assert(walk_in_order(t, st1));
    let st2 = after_extremum(t, st1, i);
    assert(walk_in_order(t, st2)) by {
        if is_valley(t, i) {
            if st1.found_maximum {
                lemma_orderly_push(st1.peaks, closed_at(st1.current, prev, PeakKind::Apex), req);
            } else if st1.peaks.len() > 0 {
                let last = st1.peaks.last();
                lemma_orderly_replace_last(
                    st1.peaks,
                    closed_at(with_area(last, st1.current.area as int), prev, last.kind),
                    req,
                );
            }
        }
    }
    let st3 = after_rising(t, st2, i);
    assert(walk_in_order(t, st3)) by {
        if rising_inflection(t, i) {
            lemma_orderly_push(
                st2.peaks,
                closed_at(
                    with_apex(st2.current, next, height_at(t.series, t.baseline, i)),
                    next,
                    PeakKind::Shoulder,
                ),
                req,
            );
        }
    }
    let st4 = after_falling(t, st3, i);
    assert(walk_in_order(t, st4)) by {
        if falling_inflection(t, i) {
            lemma_orderly_push(st3.peaks, closed_at(st3.current, next, PeakKind::Shoulder), req);
        }
    }
}

proof fn lemma_walk_in_order(t: Trace, n: int)
    requires
        valid_series(t.series),
        aligned(t.series, t.baseline),
        n <= t.series.len(),
    ensures
        walk_in_order(t, scan_upto(t, n)),
    decreases n,
{
    if n > 1 {
        lemma_walk_in_order(t, n - 1);
        lemma_step_in_order(t, scan_upto(t, n - 1), n - 1);
    }
}

/// Every peak that was closed at a valley or at the end of the trace has a
/// summit higher than the height requirement, so where no shoulder is cut
/// every peak has; and each peak begins where the peak before it ends.
pub proof fn lemma_peaks_orderly(t: Trace)
    requires
        valid_series(t.series),
        aligned(t.series, t.baseline),
    ensures
        orderly(segmented(t), t.height_requirement),
{
    if t.series.len() > 0 {
        lemma_walk_in_order(t, t.series.len() as int);
        let st = scan_upto(t, t.series.len() as int);
        if st.found_maximum {
            lemma_orderly_push(
                st.peaks,
                closed_at(st.current, t.series.last(), PeakKind::Apex),
                t.height_requirement,
            );
        }
    }
}

/// Sum of the magnitudes of the areas of the peaks.
pub open spec fn gathered(peaks: Seq<Peak>) -> int
    decreases peaks.len(),
{
    if peaks.len() == 0 {
        0
    } else {
        gathered(peaks.drop_last()) + magnitude(peaks.last().area as int)
    }
}

/// Sum of the areas of the peaks.
pub open spec fn area_sum(peaks: Seq<Peak>) -> int
    decreases peaks.len(),
{
    if peaks.len() == 0 {
        0
    } else {
        area_sum(peaks.drop_last()) + peaks.last().area
    }
}

proof fn lemma_gathered_push(peaks: Seq<Peak>, peak: Peak)
    ensures
        gathered(peaks.push(peak)) == gathered(peaks) + magnitude(peak.area as int),
{
    assert(peaks.push(peak).drop_last() =~= peaks);
}

proof fn lemma_gathered_replace_last(peaks: Seq<Peak>, peak: Peak)
    requires
        peaks.len() > 0,
    ensures
        gathered(peaks.update(peaks.len() - 1, peak)) == gathered(peaks) - magnitude(
            peaks.last().area as int,
        ) + magnitude(peak.area as int),
{
    assert(peaks.update(peaks.len() - 1, peak).drop_last() =~= peaks.drop_last());
}

/// The sum of the areas of some peaks is no larger in magnitude than the
/// sum of the magnitudes of their areas.
pub proof fn lemma_area_sum_bound(peaks: Seq<Peak>)
    ensures
        0 <= gathered(peaks),
        -gathered(peaks) <= area_sum(peaks) <= gathered(peaks),
    decreases peaks.len(),
{
    if peaks.len() > 0 {
        lemma_area_sum_bound(peaks.drop_last());
    }
}

/// The areas held by the walk are within what the steps walked so far can
/// hold.
pub open spec fn walk_bounded(st: Scan, i: int) -> bool {
    gathered(st.peaks) + magnitude(st.current.area as int) <= i * step_limit()
}

/// A step of the walk adds the area of its trapezoid exactly, and keeps the
/// areas held within what the steps walked can hold: no sum of areas leaves
/// the range of the numbers that hold it, and no height does.
pub proof fn lemma_step_exact(t: Trace, st: Scan, i: int)
    requires
        valid_series(t.series),
        aligned(t.series, t.baseline),
        1 <= i < t.series.len(),
        i <= usize::MAX,
        walk_bounded(st, i),
    ensures
        after_area(t, st, i).current.area == st.current.area + trapezoid(
            t.series,
            t.baseline,
            i,
        ),
        -2 * COORD_LIMIT <= height_at(t.series, t.baseline, i - 1) <= 2 * COORD_LIMIT,
        -2 * COORD_LIMIT <= height_at(t.series, t.baseline, i) <= 2 * COORD_LIMIT,
        walk_bounded(scan_step(t, st, i), i + 1),
{
    assert(admissible(t.series[i]) && admissible(t.series[i - 1]));
    assert(admissible(t.baseline[i]) && admissible(t.baseline[i - 1]));
    lemma_trapezoid(t.series, t.baseline, i);
    lemma_area_sum_bound(st.peaks);
    let prev = t.series[i - 1];
    let next = t.series[i];
    let st1 = after_area(t, st, i);
    assert(walk_bounded(st1, i + 1));
    let st2 = after_extremum(t, st1, i);
    assert(walk_bounded(st2, i + 1)) by {
        if is_valley(t, i) {
            if st1.found_maximum {
                lemma_gathered_push(st1.peaks, closed_at(st1.current, prev, PeakKind::Apex));
            } else if st1.peaks.len() > 0 {
                let last = st1.peaks.last();
                lemma_area_sum_bound(st1.peaks.drop_last());
                lemma_gathered_replace_last(
                    st1.peaks,
                    closed_at(with_area(last, st1.current.area as int), prev, last.kind),
                );
            }
        }
    }
    let st3 = after_rising(t, st2, i);
    assert(walk_bounded(st3, i + 1)) by {
        if rising_inflection(t, i) {
            lemma_gathered_push(
                st2.peaks,
                closed_at(
                    with_apex(st2.current, next, height_at(t.series, t.baseline, i)),
                    next,
                    PeakKind::Shoulder,
                ),
            );
        }
    }
    let st4 = after_falling(t, st3, i);
    assert(walk_bounded(st4, i + 1)) by {
        if falling_inflection(t, i) {
            lemma_gathered_push(st3.peaks, closed_at(st3.current, next, PeakKind::Shoulder));
        }
    }
}

/// The areas held after the first `n` points are within what `n` steps can
/// hold.
pub proof fn lemma_walk_bounded(t: Trace, n: int)
    requires
        valid_series(t.series),
        aligned(t.series, t.baseline),
        1 <= n <= t.series.len(),
        n <= usize::MAX,
    ensures
        walk_bounded(scan_upto(t, n), n),
    decreases n,
{
    if n > 1 {
        lemma_walk_bounded(t, n - 1);
        lemma_step_exact(t, scan_upto(t, n - 1), n - 1);
    }
}

/// Peaks keep their areas when their apexes are given glucose units.
pub proof fn lemma_calibrated_areas(peaks: Seq<Peak>, curve: Option<Curve>)
    ensures
        gathered(all_calibrated(peaks, curve)) == gathered(peaks),
        area_sum(all_calibrated(peaks, curve)) == area_sum(peaks),
    decreases peaks.len(),
{
    if peaks.len() > 0 {
        lemma_calibrated_areas(peaks.drop_last(), curve);
        assert(all_calibrated(peaks, curve).drop_last() =~= all_calibrated(
            peaks.drop_last(),
            curve,
        ));
    }
}

/// Adds up the areas of the peaks.
pub(crate) fn sum_areas(peaks: &Vec<Peak>) -> (total: i128)
    requires
        gathered(peaks@) <= usize::MAX * step_limit(),
    ensures
        total == area_sum(peaks@),
{
    let mut total: i128 = 0;
    let mut k: usize = 0;
    proof {
        lemma_gathered_prefix(peaks@, 0);
    }
    while k < peaks.len()
        invariant
            k <= peaks.len(),
            gathered(peaks@) <= usize::MAX * step_limit(),
            total == area_sum(peaks@.take(k as int)),
            gathered(peaks@.take(k as int)) <= gathered(peaks@),
        decreases peaks.len() - k,
    {
        proof {
            assert(peaks@.take(k + 1).drop_last() =~= peaks@.take(k as int));
            lemma_area_sum_bound(peaks@.take(k as int));
            lemma_area_sum_bound(peaks@.take(k + 1));
            lemma_gathered_prefix(peaks@, k + 1);
        }
        total = total + peaks[k].area;
        k += 1;
    }
    assert(peaks@.take(peaks.len() as int) =~= peaks@);
    total
}

proof fn lemma_gathered_prefix(peaks: Seq<Peak>, n: int)
    requires
        0 <= n <= peaks.len(),
    ensures
        0 <= gathered(peaks.take(n)) <= gathered(peaks),
    decreases peaks.len() - n,
{
    lemma_area_sum_bound(peaks.take(n));
    if n < peaks.len() {
        lemma_gathered_prefix(peaks, n + 1);
        assert(peaks.take(n + 1).drop_last() =~= peaks.take(n));
    } else {
        assert(peaks.take(n) =~= peaks);
    }
}

/// Segments a trace into peaks.
///
/// `first_derivative` and `second_derivative` are the derivatives of the
/// series, `baseline` its baseline. A summit counts where it stands higher
/// above the baseline than `height_requirement`; the shoulder test is armed
/// where the second derivative changes by `inflection_requirement` or more
/// over a step. A series of fewer than two points has no peaks.
pub fn calculate_components(
    data: &Vec<Point2D>,
    baseline: &Vec<Point2D>,
    first_derivative: &Vec<Point2D>,
    second_derivative: &Vec<Point2D>,
    height_requirement: i64,
    inflection_requirement: i64,
) -> (result: Vec<Peak>)
    requires
        valid_series(data@),
        aligned(data@, baseline@),
    ensures
        result@ == segmented(
            Trace {
                series: data@,
                baseline: baseline@,
                first: first_derivative@,
                second: second_derivative@,
                height_requirement,
                inflection_requirement,
            },
        ),
        gathered(result@) <= data.len() * step_limit(),
        orderly(result@, height_requirement),
{
    let ghost t = Trace {
        series: data@,
        baseline: baseline@,
        first: first_derivative@,
        second: second_derivative@,
        height_requirement,
        inflection_requirement,
    };
    let mut result: Vec<Peak> = Vec::new();
    let n = data.len();
    if n == 0 {
        return result;
    }
    let mut peak = Peak::starting_at(data[0]);
    let mut found_maximum = false;
    let mut index: usize = 1;
    while index < n
        invariant
            1 <= index <= n,
            n == data.len(),
            valid_series(data@),
            aligned(data@, baseline@),
            t == (Trace {
                series: data@,
                baseline: baseline@,
                first: first_derivative@,
                second: second_derivative@,
                height_requirement,
                inflection_requirement,
            }),
            (Scan { peaks: result@, current: peak, found_maximum }) == scan_upto(t, index as int),
            gathered(result@) + magnitude(peak.area as int) <= index * step_limit(),
        decreases n - index,
    {
        let ghost st0 = Scan { peaks: result@, current: peak, found_maximum };
        proof {
            lemma_area_sum_bound(result@);
        }
        let prev = data[index - 1];
        let next = data[index];
        let area = step_area(data, baseline, index);
        peak.area = peak.area + area;
        let ghost st1 = Scan { peaks: result@, current: peak, found_maximum };
        assert(st1 == after_area(t, st0, index as int));
        assert(gathered(result@) + magnitude(peak.area as int) <= (index + 1) * step_limit());

        let slopes_known = 2 <= index && index - 1 < first_derivative.len();
        if slopes_known {
            let prev_drv = first_derivative[index - 2].y;
            let next_drv = first_derivative[index - 1].y;
            if prev_drv <= 0 && next_drv >= 0 {
                if found_maximum {
                    found_maximum = false;
                    peak.end = prev;
                    peak.kind = PeakKind::Apex;
                    proof {
                        lemma_gathered_push(result@, peak);
                    }
                    result.push(peak);
                    peak = Peak::starting_at(prev);
                } else {
                    if result.len() > 0 {
                        let at = result.len() - 1;
                        let mut last = result[at];
                        proof {
                            lemma_area_sum_bound(result@.drop_last());
                        }
                        last.end = prev;
                        last.area = last.area + peak.area;
                        proof {
                            lemma_gathered_replace_last(result@, last);
                        }
                        result.set(at, last);
                    }
                    peak = Peak::starting_at(prev);
                }
            } else if prev_drv >= 0 && next_drv <= 0 {
                let at = if prev.y > next.y {
                    index - 1
                } else {
                    index
                };
                let height = height_above(data, baseline, at);
                if !found_maximum || height > peak.height {
                    peak.height = height;
                    peak.retention_point = data[at];
                }
                if height > height_requirement {
                    found_maximum = true;
                }
            }
        }
        let ghost st2 = Scan { peaks: result@, current: peak, found_maximum };
        assert(st2 == after_extremum(t, st1, index as int));
        assert(gathered(result@) + magnitude(peak.area as int) <= (index + 1) * step_limit());

        let curvatures_known = slopes_known && 3 <= index && index - 2 < second_derivative.len();
        let mut armed = false;
        if curvatures_known {
            let difference = abs_diff(
                second_derivative[index - 3].y,
                second_derivative[index - 2].y,
            );
            let height = height_above(data, baseline, index - 1);
            armed = difference >= inflection_requirement as i128 && height > height_requirement;
        }
        assert(armed == shoulder_armed(t, index as int));
        if armed {
            let prev_drv = first_derivative[index - 2].y;
            let prev_drv2 = second_derivative[index - 3].y;
            let next_drv2 = second_derivative[index - 2].y;
            if prev_drv2 <= 0 && next_drv2 >= 0 && prev_drv >= 0 {
                peak.height = height_above(data, baseline, index);
                peak.retention_point = next;
                peak.end = next;
                peak.kind = PeakKind::Shoulder;
                proof {
                    lemma_gathered_push(result@, peak);
                }
                result.push(peak);
                peak = Peak::starting_at(next);
                found_maximum = false;
            }
            let ghost st3 = Scan { peaks: result@, current: peak, found_maximum };
            assert(st3 == after_rising(t, st2, index as int));
            if prev_drv2 >= 0 && next_drv2 <= 0 && prev_drv <= 0 {
                peak.end = next;
                peak.kind = PeakKind::Shoulder;
                proof {
                    lemma_gathered_push(result@, peak);
                }
                result.push(peak);
                peak = Peak::starting_at(next);
                peak.retention_point = next;
                peak.height = height_above(data, baseline, index);
                found_maximum = peak.height > height_requirement;
            }
        }
        assert((Scan { peaks: result@, current: peak, found_maximum }) == scan_step(
            t,
            st0,
            index as int,
        ));
        index += 1;
    }
    if found_maximum {
        peak.end = data[n - 1];
        peak.kind = PeakKind::Apex;
        proof {
            lemma_gathered_push(result@, peak);
        }
        result.push(peak);
    }
    proof {
        lemma_area_sum_bound(result@);
        lemma_peaks_orderly(t);
    }
    result
}

} // verus!
