//! Transforms of a trace: admission of raw points, smoothing, restriction
//! to a window of time, and the discrete derivative.

use vstd::prelude::*;
use crate::fixed::{lemma_trunc_div_bounds, magnitude, trunc_div, COORD_LIMIT};
use crate::vector::{increasing_times, slope, Point2D, Vector2};

verus! {

/// Both coordinates of the point are within `COORD_LIMIT`.
pub open spec fn admissible(p: Point2D) -> bool {
    &&& -COORD_LIMIT <= p.x <= COORD_LIMIT
    &&& -COORD_LIMIT <= p.y <= COORD_LIMIT
}

/// A series that the analysis accepts: its points are within the limits and
/// each lies later in time than the one before it.
pub open spec fn valid_series(s: Seq<Point2D>) -> bool {
    &&& increasing_times(s)
    &&& forall|k: int| 0 <= k < s.len() ==> admissible(#[trigger] s[k])
}

/// The points of `points` that are admitted, in their order: a point is
/// dropped where a coordinate is beyond the limit or where it does not lie
/// later in time than the last point admitted before it.
pub open spec fn admitted(points: Seq<Point2D>) -> Seq<Point2D>
    decreases points.len(),
{
    if points.len() == 0 {
        Seq::empty()
    } else {
        let kept = admitted(points.drop_last());
        let p = points.last();
        if admissible(p) && (kept.len() == 0 || kept.last().x < p.x) {
            kept.push(p)
        } else {
            kept
        }
    }
}

/// What is admitted is a valid series.
pub proof fn lemma_admitted_valid(points: Seq<Point2D>)
    ensures
        valid_series(admitted(points)),
    decreases points.len(),
{
    if points.len() > 0 {
        lemma_admitted_valid(points.drop_last());
        let kept = admitted(points.drop_last());
        let now = admitted(points);
        if now.len() > kept.len() {
            assert forall|i: int, j: int| 0 <= i < j < now.len() implies now[i].x < now[j].x by {
                if j < kept.len() {
                    assert(kept[i].x < kept[j].x);
                } else if i < kept.len() - 1 {
                    assert(kept[i].x < kept[kept.len() - 1].x);
                }
            }
        }
    }
}

/// Of a valid series every point is admitted.
pub proof fn lemma_admitted_keeps_valid(points: Seq<Point2D>)
    requires
        valid_series(points),
    ensures
        admitted(points) == points,
    decreases points.len(),
{
    if points.len() > 0 {
        let front = points.drop_last();
        assert(valid_series(front));
        lemma_admitted_keeps_valid(front);
        assert(front.push(points.last()) =~= points);
    } else {
        assert(points =~= Seq::<Point2D>::empty());
    }
}

/// Tells whether both coordinates of the point are within the limit.
pub fn is_admissible(p: &Point2D) -> (r: bool)
    ensures
        r == admissible(*p),
{
    -COORD_LIMIT <= p.x && p.x <= COORD_LIMIT && -COORD_LIMIT <= p.y && p.y <= COORD_LIMIT
}

/// Drops the points that cannot stand in a series.
pub fn sanitize(points: &Vec<Point2D>) -> (r: Vec<Point2D>)
    ensures
        r@ == admitted(points@),
        valid_series(r@),
{
    let mut r: Vec<Point2D> = Vec::new();
    let mut k: usize = 0;
    while k < points.len()
        invariant
            k <= points.len(),
            r@ == admitted(points@.take(k as int)),
        decreases points.len() - k,
    {
        let p = points[k];
        proof {
            assert(points@.take(k + 1).drop_last() =~= points@.take(k as int));
        }
        let later = r.len() == 0 || r[r.len() - 1].x < p.x;
        if is_admissible(&p) && later {
            r.push(p);
        }
        k += 1;
    }
    proof {
        assert(points@.take(points.len() as int) =~= points@);
        lemma_admitted_valid(points@);
    }
    r
}

/// Tells whether a series is valid.
pub fn is_valid_series(points: &Vec<Point2D>) -> (r: bool)
    ensures
        r == valid_series(points@),
{
    let mut k: usize = 0;
    while k < points.len()
        invariant
            k <= points.len(),
            valid_series(points@.take(k as int)),
        decreases points.len() - k,
    {
        if !is_admissible(&points[k]) {
            return false;
        }
        if k > 0 && points[k - 1].x >= points[k].x {
            assert(!(points@[k - 1].x < points@[k as int].x));
            return false;
        }
        proof {
            let before = points@.take(k as int);
            let now = points@.take(k + 1);
            assert forall|i: int, j: int| 0 <= i < j < now.len() implies now[i].x < now[j].x by {
                if j < k {
                    assert(before[i].x < before[j].x);
                } else if i < k - 1 {
                    assert(before[i].x < before[k - 1].x);
                }
            }
            assert forall|n: int| 0 <= n < now.len() implies admissible(#[trigger] now[n]) by {
                if n < k {
                    assert(admissible(before[n]));
                }
            }
        }
        k += 1;
    }
    assert(points@.take(points.len() as int) =~= points@);
    true
}

/// Sum of the intensities of the points from `lo` up to, not including, `hi`.
pub open spec fn sum_levels(s: Seq<Point2D>, lo: int, hi: int) -> int
    decreases hi - lo,
{
    if hi <= lo {
        0
    } else {
        sum_levels(s, lo, hi - 1) + s[hi - 1].y
    }
}

/// First point of the window around `i`.
pub open spec fn window_start(i: int, w: int) -> int {
    if i - w < 0 {
        0
    } else {
        i - w
    }
}

/// Last point of the window around `i` in a series of `n` points.
pub open spec fn window_end(i: int, w: int, n: int) -> int {
    if i + w > n - 1 {
        n - 1
    } else {
        i + w
    }
}

/// Point `i` with its intensity replaced by the mean over the window that
/// reaches `w` points to either side, cut off at the ends of the series.
pub open spec fn smoothed_point(s: Seq<Point2D>, w: int, i: int) -> Point2D {
    let lo = window_start(i, w);
    let hi = window_end(i, w, s.len() as int);
    Point2D { x: s[i].x, y: trunc_div(sum_levels(s, lo, hi + 1), hi + 1 - lo) as i64 }
}

/// The series smoothed by a centred moving mean of half-width `w`.
pub open spec fn smoothed(s: Seq<Point2D>, w: int) -> Seq<Point2D> {
    Seq::new(s.len(), |i: int| smoothed_point(s, w, i))
}

proof fn lemma_mean_bound(total: int, count: int, limit: int)
    requires
        count > 0,
        limit >= 0,
        -(count * limit) <= total <= count * limit,
    ensures
        -limit <= trunc_div(total, count) <= limit,
{
    lemma_trunc_div_bounds(total, count);
    let q = magnitude(trunc_div(total, count));
    assert(q * count <= count * limit);
    assert(q <= limit) by (nonlinear_arith)
        requires
            q * count <= count * limit,
            count > 0,
    ;
}

proof fn lemma_sum_levels_bound(s: Seq<Point2D>, lo: int, hi: int)
    requires
        valid_series(s),
        0 <= lo <= hi <= s.len(),
    ensures
        -((hi - lo) * COORD_LIMIT) <= sum_levels(s, lo, hi) <= (hi - lo) * COORD_LIMIT,
    decreases hi - lo,
{
    if hi > lo {
        lemma_sum_levels_bound(s, lo, hi - 1);
        assert(admissible(s[hi - 1]));
    }
}

/// The mean over a window of a valid series lies within the limit of a
/// coordinate, so a smoothed series is valid.
pub proof fn lemma_smoothed_within_limits(s: Seq<Point2D>, w: int, i: int)
    requires
        valid_series(s),
        w >= 0,
        0 <= i < s.len(),
    ensures
        ({
            let lo = window_start(i, w);
            let hi = window_end(i, w, s.len() as int);
            -COORD_LIMIT <= trunc_div(sum_levels(s, lo, hi + 1), hi + 1 - lo) <= COORD_LIMIT
        }),
        admissible(smoothed_point(s, w, i)),
{
    let lo = window_start(i, w);
    let hi = window_end(i, w, s.len() as int);
    lemma_sum_levels_bound(s, lo, hi + 1);
    lemma_mean_bound(sum_levels(s, lo, hi + 1), hi + 1 - lo, COORD_LIMIT as int);
    assert(admissible(s[i]));
}

/// Smooths a series by a centred moving mean: each intensity becomes the
/// mean of the intensities from `smoothing` points before to `smoothing`
/// points after, as far as the series reaches. Times are kept.
pub fn mean_filter(data: &Vec<Point2D>, smoothing: usize) -> (r: Vec<Point2D>)
    requires
        valid_series(data@),
    ensures
        r@ == smoothed(data@, smoothing as int),
        forall|i: int|
            0 <= i < data.len() ==> (#[trigger] r[i]).y == trunc_div(
                sum_levels(
                    data@,
                    window_start(i, smoothing as int),
                    window_end(i, smoothing as int, data.len() as int) + 1,
                ),
                window_end(i, smoothing as int, data.len() as int) + 1 - window_start(
                    i,
                    smoothing as int,
                ),
            ),
        valid_series(r@),
{
    let n = data.len();
    let mut r: Vec<Point2D> = Vec::new();
    let mut i: usize = 0;
    while i < n
        invariant
            i <= n,
            n == data.len(),
            valid_series(data@),
            r.len() == i,
            forall|k: int| 0 <= k < i ==> r[k] == smoothed_point(data@, smoothing as int, k),
            forall|k: int| 0 <= k < i ==> admissible(#[trigger] r[k]),
        decreases n - i,
    {
        let lo: usize = if i >= smoothing {
            i - smoothing
        } else {
            0
        };
        let hi: usize = if smoothing >= n - 1 - i {
            n - 1
        } else {
            i + smoothing
        };
        let mut total: i128 = 0;
        let mut k: usize = lo;
        while k <= hi
            invariant
                lo <= k <= hi + 1,
                hi < n,
                n == data.len(),
                valid_series(data@),
                total == sum_levels(data@, lo as int, k as int),
                -((k - lo) * COORD_LIMIT) <= total <= (k - lo) * COORD_LIMIT,
            decreases hi + 1 - k,
        {
            assert(admissible(data@[k as int]));
            total = total + data[k].y as i128;
            k += 1;
        }
        let count: i128 = (hi - lo) as i128 + 1;
        proof {
            lemma_mean_bound(total as int, count as int, COORD_LIMIT as int);
            assert(admissible(data@[i as int]));
        }
        let mean: i128 = total / count;
        r.push(Point2D { x: data[i].x, y: mean as i64 });
        i += 1;
    }
    proof {
        assert(r@ =~= smoothed(data@, smoothing as int));
        assert forall|i: int| 0 <= i < data.len() implies (#[trigger] r[i]).y == trunc_div(
            sum_levels(
                data@,
                window_start(i, smoothing as int),
                window_end(i, smoothing as int, data.len() as int) + 1,
            ),
            window_end(i, smoothing as int, data.len() as int) + 1 - window_start(
                i,
                smoothing as int,
            ),
        ) by {
            lemma_smoothed_within_limits(data@, smoothing as int, i);
        }
        assert forall|a: int, b: int| 0 <= a < b < r@.len() implies r@[a].x < r@[b].x by {
            assert(data@[a].x < data@[b].x);
        }
    }
    r
}

/// A window of time, closed at its start and open at its end.
#[derive(Clone, Copy, Debug, PartialEq, Eq)]
pub struct TimeRange {
    pub start: i64,
    pub end: i64,
}

impl TimeRange {
    /// The time `t` lies in the window.
    pub open spec fn holds(&self, t: i64) -> bool {
        self.start <= t < self.end
    }

    /// Tells whether the time `t` lies in the window.
    pub fn contains(&self, t: i64) -> (r: bool)
        ensures
            r == self.holds(t),
    {
        self.start <= t && t < self.end
    }
}

/// The points of the series whose time lies in the window, in their order.
pub open spec fn restricted(s: Seq<Point2D>, range: TimeRange) -> Seq<Point2D>
    decreases s.len(),
{
    if s.len() == 0 {
        Seq::empty()
    } else {
        let kept = restricted(s.drop_last(), range);
        if range.holds(s.last().x) {
            kept.push(s.last())
        } else {
            kept
        }
    }
}

/// Keeps the points of a series whose time lies in the window.
pub fn restrict(data: &Vec<Point2D>, range: &TimeRange) -> (r: Vec<Point2D>)
    requires
        valid_series(data@),
    ensures
        r@ == restricted(data@, *range),
        valid_series(r@),
{
    let mut r: Vec<Point2D> = Vec::new();
    let mut k: usize = 0;
    while k < data.len()
        invariant
            k <= data.len(),
            valid_series(data@),
            r@ == restricted(data@.take(k as int), *range),
            valid_series(r@),
            r.len() > 0 ==> k > 0 && r@.last().x <= data@[k - 1].x,
        decreases data.len() - k,
    {
        let p = data[k];
        proof {
            assert(data@.take(k + 1).drop_last() =~= data@.take(k as int));
            assert(admissible(data@[k as int]));
            if k > 0 {
                assert(data@[k - 1].x < data@[k as int].x);
            }
        }
        if range.contains(p.x) {
            let ghost before = r@;
            r.push(p);
            proof {
                assert forall|i: int, j: int| 0 <= i < j < r@.len() implies r@[i].x < r@[j].x by {
                    if j < before.len() {
                        assert(before[i].x < before[j].x);
                    } else if i < before.len() - 1 {
                        assert(before[i].x < before[before.len() - 1].x);
                    }
                }
                assert forall|n: int| 0 <= n < r@.len() implies admissible(#[trigger] r@[n]) by {
                    if n < before.len() {
                        assert(admissible(before[n]));
                    }
                }
            }
        }
        k += 1;
    }
    assert(data@.take(data.len() as int) =~= data@);
    r
}

/// Tells whether each point lies later in time than the one before it.
pub fn has_increasing_times(points: &Vec<Point2D>) -> (r: bool)
    ensures
        r == increasing_times(points@),
{
    let mut k: usize = 1;
    if points.len() < 2 {
        return true;
    }
    while k < points.len()
        invariant
            1 <= k <= points.len(),
            increasing_times(points@.take(k as int)),
        decreases points.len() - k,
    {
        if points[k - 1].x >= points[k].x {
            assert(!(points@[k - 1].x < points@[k as int].x));
            return false;
        }
        proof {
            let before = points@.take(k as int);
            let now = points@.take(k + 1);
            assert forall|i: int, j: int| 0 <= i < j < now.len() implies now[i].x < now[j].x by {
                if j < k {
                    assert(before[i].x < before[j].x);
                } else if i < k - 1 {
                    assert(before[i].x < before[k - 1].x);
                }
            }
        }
        k += 1;
    }
    assert(points@.take(points.len() as int) =~= points@);
    true
}

/// The central difference at point `j + 1` of the graph: the slope of the
/// line through its two neighbours, at its own time.
pub open spec fn derivative_point(g: Seq<Point2D>, j: int) -> Point2D {
    Point2D { x: g[j + 1].x, y: slope(g[j].x as int, g[j].y as int, g[j + 2].x as int, g[j + 2].y as int) as i64 }
}

/// The discrete derivative of a graph: one point for each point that has a
/// neighbour on both sides.
pub open spec fn derivative(g: Seq<Point2D>) -> Seq<Point2D> {
    if g.len() < 3 {
        Seq::empty()
    } else {
        Seq::new((g.len() - 2) as nat, |j: int| derivative_point(g, j))
    }
}

/// Differentiates a graph by central differences. The result is two points
/// shorter than the graph, and empty for a graph of fewer than three points.
pub fn calculate_derivative(graph: &Vec<Point2D>) -> (r: Vec<Point2D>)
    requires
        increasing_times(graph@),
    ensures
        r@ == derivative(graph@),
        increasing_times(r@),
{
    let mut r: Vec<Point2D> = Vec::new();
    if graph.len() < 3 {
        return r;
    }
    let mut j: usize = 0;
    while j < graph.len() - 2
        invariant
            graph.len() >= 3,
            j <= graph.len() - 2,
            increasing_times(graph@),
            r.len() == j,
            forall|k: int| 0 <= k < j ==> r[k] == derivative_point(graph@, k),
        decreases graph.len() - 2 - j,
    {
        assert(graph@[j as int].x < graph@[j + 2].x);
        let before = graph[j];
        let after = graph[j + 2];
        let g = before.gradient(&after);
        r.push(Point2D { x: graph[j + 1].x, y: g });
        j += 1;
    }
    proof {
        assert(r@ =~= derivative(graph@));
        assert forall|a: int, b: int| 0 <= a < b < r@.len() implies r@[a].x < r@[b].x by {
            assert(graph@[a + 1].x < graph@[b + 1].x);
        }
    }
    r
}

} // verus!
