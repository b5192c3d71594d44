//! The calibration curve from retention time to glucose units: a natural
//! cubic spline through the knots of a dextran ladder.
//!
//! The coefficients of a fit are found outside this library, in floating
//! point. A curve is built from them only after the fit has been held
//! against its knots here: every curve that exists passes through its knots
//! to within `VALUE_TOLERANCE`, and joins its segments smoothly and ends
//! without curvature to within `FIT_TOLERANCE`.

use vstd::prelude::*;
use crate::fixed::{distance, lemma_product_bound, trunc_div};
use crate::vector::{increasing_times, Point2D};

verus! {

/// Raw steps per unit of a coefficient.
pub const COEFFICIENT_SCALE: i64 = 1_000_000_000_000;

/// Largest magnitude of a time at which a curve can be evaluated.
pub const CURVE_TIME_LIMIT: i64 = 100_000_000;

/// Largest magnitude of the cubic coefficient.
pub const CUBIC_LIMIT: i64 = 10_000_000_000_000;

/// Largest magnitude of the quadratic coefficient.
pub const QUADRATIC_LIMIT: i64 = 1_000_000_000_000_000;

/// Largest magnitude of the linear coefficient.
pub const LINEAR_LIMIT: i64 = 100_000_000_000_000_000;

/// Largest magnitude of the constant coefficient.
pub const CONSTANT_LIMIT: i64 = 1_000_000_000_000_000_000;

/// Largest distance, in raw steps, between a knot and the curve fitted to
/// it: what the rounding of the coefficients and of the value leaves.
pub const VALUE_TOLERANCE: i64 = 1;

/// Largest difference, in raw steps, between the slopes and between the
/// curvatures of two segments where they meet, and largest curvature at the
/// two ends of a curve.
pub const FIT_TOLERANCE: i64 = 100;

/// The polynomial `a t^3 + b t^2 + c t + d`, each coefficient in steps of
/// `1 / COEFFICIENT_SCALE`.
#[derive(Clone, Copy, Debug, PartialEq, Eq)]
pub struct Cubic {
    pub a: i64,
    pub b: i64,
    pub c: i64,
    pub d: i64,
}

impl Cubic {
    /// Every coefficient is small enough for the polynomial to be evaluated
    /// exactly at any time up to `CURVE_TIME_LIMIT`.
    pub open spec fn within_limits(&self) -> bool {
        &&& -CUBIC_LIMIT <= self.a <= CUBIC_LIMIT
        &&& -QUADRATIC_LIMIT <= self.b <= QUADRATIC_LIMIT
        &&& -LINEAR_LIMIT <= self.c <= LINEAR_LIMIT
        &&& -CONSTANT_LIMIT <= self.d <= CONSTANT_LIMIT
    }

    /// The polynomial at the raw time `t`, before the division that brings
    /// it back to raw steps.
    pub open spec fn numerator(&self, t: int) -> int {
        let t2 = t * t;
        let t3 = t2 * t;
        self.a * t3 + (self.b * t2) * 1_000_000 + (self.c * t) * 1_000_000_000_000 + self.d
            * 1_000_000_000_000_000_000
    }

    /// The polynomial at the raw time `t`, in raw steps, rounded toward zero.
    pub open spec fn value(&self, t: int) -> int {
        trunc_div(self.numerator(t), 1_000_000_000_000_000_000_000_000)
    }

    /// The first derivative of the polynomial at the raw time `t`, in raw
    /// steps per unit of time, rounded toward zero.
    pub open spec fn slope(&self, t: int) -> int {
        trunc_div(
            (3 * self.a) * (t * t) + ((2 * self.b) * t) * 1_000_000 + self.c * 1_000_000_000_000,
            1_000_000_000_000_000_000,
        )
    }

    /// The second derivative of the polynomial at the raw time `t`, in raw
    /// steps per unit of time squared, rounded toward zero.
    pub open spec fn curvature(&self, t: int) -> int {
        trunc_div((6 * self.a) * t + (2 * self.b) * 1_000_000, 1_000_000_000_000)
    }

    pub fn new(a: i64, b: i64, c: i64, d: i64) -> (cubic: Self)
        ensures
            cubic == (Cubic { a, b, c, d }),
    {
        Cubic { a, b, c, d }
    }

    /// Evaluates the polynomial at `t`; there is no value where a
    /// coefficient or the time is beyond its limit.
    pub fn evaluate(&self, t: i64) -> (r: Option<i64>)
        ensures
            r is Some <==> self.within_limits() && -CURVE_TIME_LIMIT <= t <= CURVE_TIME_LIMIT,
            r is Some ==> r.unwrap() == self.value(t as int),
    {
        if t < -CURVE_TIME_LIMIT || t > CURVE_TIME_LIMIT {
            return None;
        }
        if self.a < -CUBIC_LIMIT || self.a > CUBIC_LIMIT || self.b < -QUADRATIC_LIMIT || self.b
            > QUADRATIC_LIMIT {
            return None;
        }
        if self.c < -LINEAR_LIMIT || self.c > LINEAR_LIMIT || self.d < -CONSTANT_LIMIT || self.d
            > CONSTANT_LIMIT {
            return None;
        }
        let tw: i128 = t as i128;
        proof {
            lemma_product_bound(tw as int, tw as int, 100_000_000, 100_000_000);
            lemma_product_bound(tw * tw, tw as int, 10_000_000_000_000_000, 100_000_000);
            lemma_product_bound(
                self.a as int,
                (tw * tw) * tw,
                10_000_000_000_000,
                1_000_000_000_000_000_000_000_000,
            );
            lemma_product_bound(
                self.b as int,
                tw * tw,
                1_000_000_000_000_000,
                10_000_000_000_000_000,
            );
            lemma_product_bound(self.c as int, tw as int, 100_000_000_000_000_000, 100_000_000);
        }
        let t2: i128 = tw * tw;
        let t3: i128 = t2 * tw;
        let cubic: i128 = (self.a as i128) * t3;
        let quadratic: i128 = ((self.b as i128) * t2) * 1_000_000;
        let linear: i128 = ((self.c as i128) * tw) * 1_000_000_000_000;
        let constant: i128 = (self.d as i128) * 1_000_000_000_000_000_000;
        let numerator: i128 = cubic + quadratic + linear + constant;
        let value: i128 = numerator / 1_000_000_000_000_000_000_000_000;
        Some(value as i64)
    }
}

impl Cubic {
    /// Tells whether every coefficient is within its limit.
    pub fn is_within_limits(&self) -> (r: bool)
        ensures
            r == self.within_limits(),
    {
        -CUBIC_LIMIT <= self.a && self.a <= CUBIC_LIMIT && -QUADRATIC_LIMIT <= self.b && self.b
            <= QUADRATIC_LIMIT && -LINEAR_LIMIT <= self.c && self.c <= LINEAR_LIMIT
            && -CONSTANT_LIMIT <= self.d && self.d <= CONSTANT_LIMIT
    }

    /// The first derivative at `t`; there is no value where a coefficient
    /// or the time is beyond its limit.
    pub fn slope_at(&self, t: i64) -> (r: Option<i64>)
        ensures
            r is Some <==> self.within_limits() && -CURVE_TIME_LIMIT <= t <= CURVE_TIME_LIMIT,
            r is Some ==> r.unwrap() == self.slope(t as int),
    {
        if t < -CURVE_TIME_LIMIT || t > CURVE_TIME_LIMIT || !self.is_within_limits() {
            return None;
        }
        let tw: i128 = t as i128;
        let a3: i128 = 3 * (self.a as i128);
        let b2: i128 = 2 * (self.b as i128);
        proof {
            lemma_product_bound(tw as int, tw as int, 100_000_000, 100_000_000);
            lemma_product_bound(a3 as int, tw * tw, 30_000_000_000_000, 10_000_000_000_000_000);
            lemma_product_bound(b2 as int, tw as int, 2_000_000_000_000_000, 100_000_000);
        }
        let numerator: i128 = a3 * (tw * tw) + (b2 * tw) * 1_000_000 + (self.c as i128)
            * 1_000_000_000_000;
        let value: i128 = numerator / 1_000_000_000_000_000_000;
        Some(value as i64)
    }

    /// The second derivative at `t`; there is no value where a coefficient
    /// or the time is beyond its limit.
    pub fn curvature_at(&self, t: i64) -> (r: Option<i64>)
        ensures
            r is Some <==> self.within_limits() && -CURVE_TIME_LIMIT <= t <= CURVE_TIME_LIMIT,
            r is Some ==> r.unwrap() == self.curvature(t as int),
    {
        if t < -CURVE_TIME_LIMIT || t > CURVE_TIME_LIMIT || !self.is_within_limits() {
            return None;
        }
        let tw: i128 = t as i128;
        let a6: i128 = 6 * (self.a as i128);
        let b2: i128 = 2 * (self.b as i128);
        proof {
            lemma_product_bound(a6 as int, tw as int, 60_000_000_000_000, 100_000_000);
        }
        let numerator: i128 = a6 * tw + b2 * 1_000_000;
        let value: i128 = numerator / 1_000_000_000_000;
        Some(value as i64)
    }
}

impl Default for Cubic {
    /// The polynomial that returns its argument.
    fn default() -> (cubic: Self)
        ensures
            cubic == (Cubic { a: 0, b: 0, c: COEFFICIENT_SCALE, d: 0 }),
    {
        Cubic { a: 0, b: 0, c: COEFFICIENT_SCALE, d: 0 }
    }
}

/// The two values lie within `FIT_TOLERANCE` of each other.
pub open spec fn close(a: int, b: int) -> bool {
    distance(a, b) <= FIT_TOLERANCE
}

/// The value of the curve lies within `VALUE_TOLERANCE` of the rank.
pub open spec fn meets(value: int, rank: int) -> bool {
    distance(value, rank) <= VALUE_TOLERANCE
}

/// The segments are a natural cubic spline through the knots, to within the
/// tolerance: segment `k` runs from knot `k` to knot `k + 1` and passes
/// through both; where two segments meet they agree in slope and in
/// curvature; at the first and at the last knot the curvature is zero. The
/// knots lie in order of time, and everything is within the limits of
/// evaluation.
pub open spec fn acceptable_fit(knots: Seq<Point2D>, cubics: Seq<Cubic>) -> bool {
    &&& cubics.len() >= 1
    &&& knots.len() == cubics.len() + 1
    &&& increasing_times(knots)
    &&& forall|k: int|
        0 <= k < knots.len() ==> -CURVE_TIME_LIMIT <= (#[trigger] knots[k]).x <= CURVE_TIME_LIMIT
    &&& forall|k: int| 0 <= k < cubics.len() ==> (#[trigger] cubics[k]).within_limits()
    &&& forall|k: int| 0 <= k < cubics.len() ==> #[trigger] segment_fits(knots, cubics, k)
    &&& forall|k: int| 0 <= k < cubics.len() ==> #[trigger] segment_joins(knots, cubics, k)
}

/// Segment `k` leaves its first knot as the segment before it arrives
/// there, in slope and in curvature; the first segment leaves the first
/// knot, and the last segment arrives at the last knot, without curvature.
pub open spec fn segment_joins(knots: Seq<Point2D>, cubics: Seq<Cubic>, k: int) -> bool {
    let at = knots[k].x as int;
    &&& k == 0 ==> close(cubics[k].curvature(at), 0)
    &&& k > 0 ==> close(cubics[k - 1].slope(at), cubics[k].slope(at))
    &&& k > 0 ==> close(cubics[k - 1].curvature(at), cubics[k].curvature(at))
    &&& k == cubics.len() - 1 ==> close(cubics[k].curvature(knots[k + 1].x as int), 0)
}

/// Segment `k` passes through its two knots to within `VALUE_TOLERANCE`.
pub open spec fn segment_fits(knots: Seq<Point2D>, cubics: Seq<Cubic>, k: int) -> bool {
    &&& meets(cubics[k].value(knots[k].x as int), knots[k].y as int)
    &&& meets(cubics[k].value(knots[k + 1].x as int), knots[k + 1].y as int)
}

/// The value at `t` of the first segment, from segment `from` on, whose
/// closed interval holds `t`.
pub open spec fn scan_segments(knots: Seq<Point2D>, cubics: Seq<Cubic>, t: int, from: int) -> Option<
    int,
>
    decreases cubics.len() - from,
{
    if from < 0 || from >= cubics.len() {
        None
    } else if knots[from].x <= t <= knots[from + 1].x {
        Some(cubics[from].value(t))
    } else {
        scan_segments(knots, cubics, t, from + 1)
    }
}

/// The mathematical content of a calibration curve.
pub struct Curve {
    /// The knots: times of the ladder's apexes with their ranks.
    pub knots: Seq<Point2D>,
    /// The segments, one between each two neighbouring knots.
    pub cubics: Seq<Cubic>,
}

impl Curve {
    /// The segments fit the knots.
    pub open spec fn wf(&self) -> bool {
        acceptable_fit(self.knots, self.cubics)
    }

    /// The curve at the raw time `t`; no value outside the knots.
    pub open spec fn value_at(&self, t: int) -> Option<int> {
        scan_segments(self.knots, self.cubics, t, 0)
    }
}

/// A piecewise cubic calibration curve.
#[derive(Debug)]
pub struct Spline {
    knots: Vec<Point2D>,
    cubics: Vec<Cubic>,
}

impl View for Spline {
    type V = Curve;

    closed spec fn view(&self) -> Curve {
        Curve { knots: self.knots@, cubics: self.cubics@ }
    }
}

/// The content of a curve that may be absent.
pub open spec fn curve_of(spline: Option<&Spline>) -> Option<Curve> {
    match spline {
        Some(s) => Some(s@),
        None => None,
    }
}

/// The content of a curve that is held and may be absent.
pub open spec fn held_curve(spline: Option<Spline>) -> Option<Curve> {
    match spline {
        Some(s) => Some(s@),
        None => None,
    }
}

impl Spline {
    /// The curve's segments fit its knots.
    pub open spec fn wf(&self) -> bool {
        self@.wf()
    }

    /// Builds the curve through `knots` from the fitted segments, or
    /// nothing where the segments do not fit the knots.
    ///
    /// A fit is also refused where it cannot be evaluated exactly: where a
    /// knot lies at a time beyond `CURVE_TIME_LIMIT` (a hundred units), or a
    /// coefficient is beyond its limit (ten for the cubic, a thousand for the
    /// quadratic, a hundred thousand for the linear, a million for the
    /// constant one).
    pub fn new(knots: &Vec<Point2D>, cubics: &Vec<Cubic>) -> (r: Option<Spline>)
        ensures
            r is Some <==> acceptable_fit(knots@, cubics@),
            r is Some ==> r.unwrap()@ == (Curve { knots: knots@, cubics: cubics@ }),
    {
        if cubics.len() < 1 || knots.len() < 2 || knots.len() - 1 != cubics.len() {
            return None;
        }
        let mut k: usize = 0;
        while k < knots.len()
            invariant
                k <= knots.len(),
                knots.len() == cubics.len() + 1,
                increasing_times(knots@.take(k as int)),
                forall|n: int|
                    0 <= n < k ==> -CURVE_TIME_LIMIT <= (#[trigger] knots[n]).x <= CURVE_TIME_LIMIT,
            decreases knots.len() - k,
        {
            let at = knots[k].x;
            if at < -CURVE_TIME_LIMIT || at > CURVE_TIME_LIMIT {
                return None;
            }
            if k > 0 && knots[k - 1].x >= at {
                assert(!(knots@[k - 1].x < knots@[k as int].x));
                return None;
            }
            proof {
                let before = knots@.take(k as int);
                let now = knots@.take(k + 1);
                assert forall|i: int, j: int| 0 <= i < j < now.len() implies now[i].x < now[j].x by {
                    if j < k {
                        assert(before[i].x < before[j].x);
                    } else if i < k - 1 {
                        assert(before[i].x < before[k - 1].x);
                    }
                }
            }
            k += 1;
        }
        assert(knots@.take(knots.len() as int) =~= knots@);
        let mut k: usize = 0;
        while k < cubics.len()
            invariant
                k <= cubics.len(),
                knots.len() == cubics.len() + 1,
                forall|n: int|
                    0 <= n < knots.len() ==> -CURVE_TIME_LIMIT <= (#[trigger] knots[n]).x
                        <= CURVE_TIME_LIMIT,
                forall|n: int| 0 <= n < k ==> (#[trigger] cubics[n]).within_limits(),
                forall|n: int| 0 <= n < k ==> #[trigger] segment_fits(knots@, cubics@, n),
                forall|n: int| 0 <= n < k ==> #[trigger] segment_joins(knots@, cubics@, n),
            decreases cubics.len() - k,
        {
            let left = cubics[k].evaluate(knots[k].x);
            let right = cubics[k].evaluate(knots[k + 1].x);
            match (left, right) {
                (Some(l), Some(r)) => {
                    if !hits(l, knots[k].y) || !hits(r, knots[k + 1].y) {
                        assert(!segment_fits(knots@, cubics@, k as int));
                        return None;
                    }
                },
                _ => {
                    assert(!cubics[k as int].within_limits());
                    return None;
                },
            }
            if !joins(knots, cubics, k) {
                return None;
            }
            k += 1;
        }
        Some(Spline { knots: knots.clone(), cubics: cubics.clone() })
    }

    /// The glucose units at the retention time `t`, or nothing where `t`
    /// lies outside the knots.
    pub fn evaluate(&self, t: i64) -> (r: Option<i64>)
        requires
            self.wf(),
        ensures
            r is Some <==> self@.value_at(t as int) is Some,
            r is Some ==> r.unwrap() == self@.value_at(t as int).unwrap(),
    {
        let mut k: usize = 0;
        while k < self.cubics.len()
            invariant
                k <= self.cubics.len(),
                self.wf(),
                self@.value_at(t as int) == scan_segments(
                    self.knots@,
                    self.cubics@,
                    t as int,
                    k as int,
                ),
            decreases self.cubics.len() - k,
        {
            if self.knots[k].x <= t && t <= self.knots[k + 1].x {
                return self.cubics[k].evaluate(t);
            }
            k += 1;
        }
        None
    }
}

impl Clone for Spline {
    fn clone(&self) -> (r: Self)
        ensures
            r@ == self@,
    {
        let r = Spline { knots: self.knots.clone(), cubics: self.cubics.clone() };
        assert(r.knots@ =~= self.knots@);
        assert(r.cubics@ =~= self.cubics@);
        r
    }
}

proof fn lemma_scan_outside(knots: Seq<Point2D>, cubics: Seq<Cubic>, t: int, from: int)
    requires
        acceptable_fit(knots, cubics),
        0 <= from,
        t < knots[0].x || t > knots.last().x,
    ensures
        scan_segments(knots, cubics, t, from) is None,
    decreases cubics.len() - from,
{
    if from < cubics.len() {
        assert(from == 0 || knots[0].x < knots[from].x);
        assert(from + 1 == knots.len() - 1 || knots[from + 1].x < knots.last().x);
        lemma_scan_outside(knots, cubics, t, from + 1);
    }
}

proof fn lemma_scan_at_knot(knots: Seq<Point2D>, cubics: Seq<Cubic>, k: int, from: int)
    requires
        acceptable_fit(knots, cubics),
        0 <= k < knots.len(),
        0 <= from,
        from <= k - 1 || from == 0,
    ensures
        scan_segments(knots, cubics, knots[k].x as int, from) is Some,
        meets(scan_segments(knots, cubics, knots[k].x as int, from).unwrap(), knots[k].y as int),
    decreases cubics.len() - from,
{
    let t = knots[k].x as int;
    if knots[from].x <= t <= knots[from + 1].x {
        assert(segment_fits(knots, cubics, from));
        if k != from && k != from + 1 {
            assert(knots[from + 1].x < knots[k].x);
        }
    } else {
        assert(k != from && k != from + 1);
        lemma_scan_at_knot(knots, cubics, k, from + 1);
    }
}

/// Round trip of a calibration: at the time of each of its knots a curve
/// returns that knot's rank to within `VALUE_TOLERANCE`, one raw step, and
/// it has no value before its first knot or after its last.
pub proof fn lemma_calibration_round_trip(curve: Curve)
    requires
        curve.wf(),
    ensures
        forall|k: int|
            0 <= k < curve.knots.len() ==> {
                let knot = #[trigger] curve.knots[k];
                &&& curve.value_at(knot.x as int) is Some
                &&& meets(curve.value_at(knot.x as int).unwrap(), knot.y as int)
            },
        forall|t: int|
            t < curve.knots[0].x || t > curve.knots.last().x ==> #[trigger] curve.value_at(t)
                is None,
{
    let knots = curve.knots;
    let cubics = curve.cubics;
    assert forall|k: int| 0 <= k < knots.len() implies {
        let knot = #[trigger] knots[k];
        &&& curve.value_at(knot.x as int) is Some
        &&& meets(curve.value_at(knot.x as int).unwrap(), knot.y as int)
    } by {
        lemma_scan_at_knot(knots, cubics, k, 0);
    }
    assert forall|t: int| t < knots[0].x || t > knots.last().x implies #[trigger] curve.value_at(t)
        is None by {
        lemma_scan_outside(knots, cubics, t, 0);
    }
}

/// Tells whether segment `k` joins the segment before it smoothly, and
/// whether it is without curvature where the curve begins or ends.
fn joins(knots: &Vec<Point2D>, cubics: &Vec<Cubic>, k: usize) -> (r: bool)
    requires
        knots.len() == cubics.len() + 1,
        k < cubics.len(),
        cubics[k as int].within_limits(),
        k > 0 ==> cubics[k - 1].within_limits(),
        forall|n: int|
            0 <= n < knots.len() ==> -CURVE_TIME_LIMIT <= (#[trigger] knots[n]).x
                <= CURVE_TIME_LIMIT,
    ensures
        r == segment_joins(knots@, cubics@, k as int),
{
    let at = knots[k].x;
    let here = &cubics[k];
    let bend = match here.curvature_at(at) {
        Some(v) => v,
        None => 0,
    };
    if k == 0 {
        if !near(bend, 0) {
            return false;
        }
    } else {
        let before = &cubics[k - 1];
        let bend_before = match before.curvature_at(at) {
            Some(v) => v,
            None => 0,
        };
        let slope_before = match before.slope_at(at) {
            Some(v) => v,
            None => 0,
        };
        let slope_here = match here.slope_at(at) {
            Some(v) => v,
            None => 0,
        };
        if !near(slope_before, slope_here) || !near(bend_before, bend) {
            return false;
        }
    }
    if k == cubics.len() - 1 {
        let end = match here.curvature_at(knots[k + 1].x) {
            Some(v) => v,
            None => 0,
        };
        if !near(end, 0) {
            return false;
        }
    }
    true
}

/// Tells whether a value of the curve lies within the value tolerance of a
/// rank.
fn hits(value: i64, rank: i64) -> (r: bool)
    ensures
        r == meets(value as int, rank as int),
{
    crate::fixed::abs_diff(value, rank) <= VALUE_TOLERANCE as i128
}

/// Tells whether two values lie within the fit tolerance of each other.
fn near(a: i64, b: i64) -> (r: bool)
    ensures
        r == close(a as int, b as int),
{
    crate::fixed::abs_diff(a, b) <= FIT_TOLERANCE as i128
}

} // verus!
