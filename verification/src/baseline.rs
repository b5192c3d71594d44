//! The baseline of a trace: a line stretched under it from vertex to
//! vertex, each vertex being the point to which the slope from the vertex
//! before it is least. Also the area between a trace and its baseline.

use vstd::prelude::*;
use crate::fixed::{
    lemma_product_bound,
    lemma_trunc_div_bounds,
    lemma_trunc_div_lower,
    lemma_trunc_div_upper,
    trunc_div,
    COORD_LIMIT,
};
use crate::series::{admissible, valid_series};
use crate::vector::Point2D;

verus! {

/// Difference in intensity from point `o` to point `j`.
pub open spec fn rise(s: Seq<Point2D>, o: int, j: int) -> int {
    s[j].y - s[o].y
}

/// Difference in time from point `o` to point `j`.
pub open spec fn run(s: Seq<Point2D>, o: int, j: int) -> int {
    s[j].x - s[o].x
}

/// The line from `o` to `j` slopes lower than the line from `o` to `k`.
/// Both `j` and `k` come after `o`; the comparison is exact.
pub open spec fn lower_slope(s: Seq<Point2D>, o: int, j: int, k: int) -> bool {
    rise(s, o, j) * run(s, o, k) < rise(s, o, k) * run(s, o, j)
}

/// Among the points after `o` up to `upto`, the first one to which the
/// slope from `o` is least.
pub open spec fn least_steep(s: Seq<Point2D>, o: int, upto: int) -> int
    decreases upto - o,
{
    if upto <= o + 1 {
        o + 1
    } else {
        let best = least_steep(s, o, upto - 1);
        if lower_slope(s, o, upto, best) {
            upto
        } else {
            best
        }
    }
}

/// The vertex that follows the vertex `o`.
pub open spec fn next_vertex(s: Seq<Point2D>, o: int) -> int {
    least_steep(s, o, s.len() - 1)
}

/// The last vertex at or before point `k`, found by walking the vertices
/// from the vertex `o` on.
pub open spec fn governing_vertex(s: Seq<Point2D>, o: int, k: int) -> int
    decreases s.len() - o,
{
    let v = next_vertex(s, o);
    if o + 1 >= s.len() || v <= o || v >= s.len() || k < v {
        o
    } else {
        governing_vertex(s, v, k)
    }
}

/// The baseline under point `k`: on the line from the vertex that governs
/// `k` to the vertex after it, rounded toward the level of the former.
pub open spec fn baseline_level(s: Seq<Point2D>, k: int) -> int {
    let o = governing_vertex(s, 0, k);
    if o + 1 >= s.len() {
        s[o].y as int
    } else {
        let v = next_vertex(s, o);
        s[o].y + trunc_div(rise(s, o, v) * run(s, o, k), run(s, o, v))
    }
}

/// The baseline of a series, point for point under the series.
pub open spec fn baseline_of(s: Seq<Point2D>) -> Seq<Point2D> {
    Seq::new(s.len(), |k: int| Point2D { x: s[k].x, y: baseline_level(s, k) as i64 })
}

proof fn lemma_slope_order(rj: int, xj: int, rb: int, xb: int, ru: int, xu: int)
    by (nonlinear_arith)
    requires
        xj > 0,
        xb > 0,
        xu > 0,
        rj * xb >= rb * xj,
        ru * xb < rb * xu,
    ensures
        rj * xu >= ru * xj,
{
    assert((rj * xb) * xu >= (rb * xj) * xu);
    assert((ru * xb) * xj < (rb * xu) * xj);
    assert((rj * xu) * xb > (ru * xj) * xb);
}

/// No point after `o` up to `upto` is reached by a lower slope than the
/// least steep one.
pub proof fn lemma_least_steep(s: Seq<Point2D>, o: int, upto: int)
    requires
        valid_series(s),
        0 <= o < upto < s.len(),
    ensures
        o < least_steep(s, o, upto) <= upto,
        forall|j: int|
            o < j <= upto ==> !#[trigger] lower_slope(s, o, j, least_steep(s, o, upto)),
    decreases upto - o,
{
    if upto > o + 1 {
        lemma_least_steep(s, o, upto - 1);
        let best = least_steep(s, o, upto - 1);
        if lower_slope(s, o, upto, best) {
            assert forall|j: int| o < j <= upto implies !#[trigger] lower_slope(s, o, j, upto) by {
                if j < upto {
                    assert(!lower_slope(s, o, j, best));
                    assert(s[o].x < s[j].x && s[o].x < s[best].x && s[o].x < s[upto].x);
                    lemma_slope_order(
                        rise(s, o, j),
                        run(s, o, j),
                        rise(s, o, best),
                        run(s, o, best),
                        rise(s, o, upto),
                        run(s, o, upto),
                    );
                }
            }
        }
    }
}

proof fn lemma_governing_from(s: Seq<Point2D>, a: int, o: int, k: int)
    requires
        valid_series(s),
        0 <= a <= o <= k < s.len(),
        governing_vertex(s, a, o) == o,
    ensures
        governing_vertex(s, a, k) == governing_vertex(s, o, k),
    decreases s.len() - a,
{
    if a != o {
        let v = next_vertex(s, a);
        lemma_least_steep(s, a, s.len() - 1);
        lemma_governing_from(s, v, o, k);
    }
}

/// Between two vertices the baseline lies between their levels.
proof fn lemma_interpolation_between(dy: int, part: int, whole: int)
    requires
        0 <= part <= whole,
        whole > 0,
    ensures
        dy >= 0 ==> 0 <= trunc_div(dy * part, whole) <= dy,
        dy <= 0 ==> dy <= trunc_div(dy * part, whole) <= 0,
{
    lemma_trunc_div_bounds(dy * part, whole);
    if dy >= 0 {
        assert(0 <= dy * part <= dy * whole) by (nonlinear_arith)
            requires
                0 <= part <= whole,
                dy >= 0,
        ;
        lemma_trunc_div_upper(dy * part, whole, dy);
    } else {
        assert(dy * whole <= dy * part <= 0) by (nonlinear_arith)
            requires
                0 <= part <= whole,
                dy <= 0,
        ;
        lemma_trunc_div_lower(dy * part, whole, dy);
    }
}

proof fn lemma_governing_bounds(s: Seq<Point2D>, a: int, k: int)
    requires
        valid_series(s),
        0 <= a <= k < s.len(),
    ensures
        a <= governing_vertex(s, a, k) <= k,
        governing_vertex(s, a, k) + 1 < s.len() ==> k < next_vertex(s, governing_vertex(s, a, k))
            < s.len(),
    decreases s.len() - a,
{
    if a + 1 < s.len() {
        lemma_least_steep(s, a, s.len() - 1);
        let v = next_vertex(s, a);
        if k >= v {
            lemma_governing_bounds(s, v, k);
        }
    }
}

/// The baseline under each point of a valid series lies within the limit
/// of a coordinate and not above the point.
pub proof fn lemma_baseline_level(s: Seq<Point2D>, k: int)
    requires
        valid_series(s),
        0 <= k < s.len(),
    ensures
        -COORD_LIMIT <= baseline_level(s, k) <= COORD_LIMIT,
        baseline_level(s, k) <= s[k].y,
{
    lemma_governing_bounds(s, 0, k);
    let o = governing_vertex(s, 0, k);
    assert(admissible(s[o]) && admissible(s[k]));
    if o + 1 < s.len() {
        let v = next_vertex(s, o);
        assert(admissible(s[v]));
        assert(s[o].x < s[v].x);
        assert(s[k].x < s[v].x);
        if k == o {
            assert(rise(s, o, v) * run(s, o, k) == 0) by (nonlinear_arith)
                requires
                    run(s, o, k) == 0,
            ;
            lemma_trunc_div_bounds(0, run(s, o, v));
            assert(trunc_div(0, run(s, o, v)) == 0) by (nonlinear_arith)
                requires
                    run(s, o, v) > 0,
                    crate::fixed::magnitude(trunc_div(0, run(s, o, v))) * run(s, o, v) <= 0,
            ;
        } else {
            assert(s[o].x < s[k].x);
            lemma_interpolation_between(rise(s, o, v), run(s, o, k), run(s, o, v));
            lemma_least_steep(s, o, s.len() - 1);
            assert(!lower_slope(s, o, k, v));
            lemma_trunc_div_upper(rise(s, o, v) * run(s, o, k), run(s, o, v), rise(s, o, k));
        }
    }
}

/// Tells whether the line from `o` to `j` slopes lower than that from `o`
/// to `k`.
fn slope_is_lower(data: &Vec<Point2D>, o: usize, j: usize, k: usize) -> (r: bool)
    requires
        valid_series(data@),
        o < data.len(),
        j < data.len(),
        k < data.len(),
    ensures
        r == lower_slope(data@, o as int, j as int, k as int),
{
    assert(admissible(data@[o as int]) && admissible(data@[j as int]) && admissible(data@[k as int]));
    let rise_j: i128 = data[j].y as i128 - data[o].y as i128;
    let rise_k: i128 = data[k].y as i128 - data[o].y as i128;
    let run_j: i128 = data[j].x as i128 - data[o].x as i128;
    let run_k: i128 = data[k].x as i128 - data[o].x as i128;
    proof {
        lemma_product_bound(rise_j as int, run_k as int, 2_000_000_000_000, 2_000_000_000_000);
        lemma_product_bound(rise_k as int, run_j as int, 2_000_000_000_000, 2_000_000_000_000);
    }
    rise_j * run_k < rise_k * run_j
}

/// Estimates the baseline of a series.
///
/// From the first point on, the next vertex is the first among the points
/// that follow to which the slope is least; between two vertices the
/// baseline is the straight line; the last point is the last vertex. The
/// baseline has one point under each point of the series and nowhere lies
/// above it.
pub fn calculate_baseline(data: &Vec<Point2D>) -> (baseline: Vec<Point2D>)
    requires
        valid_series(data@),
    ensures
        baseline@ == baseline_of(data@),
        baseline.len() == data.len(),
        forall|k: int|
            0 <= k < data.len() ==> (#[trigger] baseline[k]).x == data[k].x && baseline[k].y
                <= data[k].y,
        forall|k: int| 0 <= k < data.len() ==> (#[trigger] baseline[k]).y == baseline_level(data@, k),
        data.len() > 0 ==> baseline[0] == data[0] && baseline[data.len() - 1] == data[data.len()
            - 1],
        valid_series(baseline@),
{
    let n = data.len();
    let mut baseline: Vec<Point2D> = Vec::new();
    if n == 0 {
        assert(baseline@ =~= baseline_of(data@));
        return baseline;
    }
    let mut origin: usize = 0;
    while origin + 1 < n
        invariant
            n == data.len(),
            origin < n,
            valid_series(data@),
            baseline.len() == origin,
            governing_vertex(data@, 0, origin as int) == origin,
            origin > 0 ==> baseline[0] == data[0],
            forall|k: int|
                0 <= k < origin ==> (#[trigger] baseline[k]) == (Point2D {
                    x: data[k].x,
                    y: baseline_level(data@, k) as i64,
                }),
            forall|k: int|
                0 <= k < origin ==> admissible(#[trigger] baseline[k]) && baseline[k].y
                    <= data[k].y,
        decreases n - origin,
    {
        let mut best: usize = origin + 1;
        let mut i: usize = origin + 2;
        while i < n
            invariant
                n == data.len(),
                origin + 1 < n,
                origin + 2 <= i <= n,
                origin < best < i,
                valid_series(data@),
                best == least_steep(data@, origin as int, i - 1),
            decreases n - i,
        {
            if slope_is_lower(data, origin, i, best) {
                best = i;
            }
            i += 1;
        }
        proof {
            lemma_least_steep(data@, origin as int, n - 1);
            assert(best == next_vertex(data@, origin as int));
            assert(admissible(data@[origin as int]) && admissible(data@[best as int]));
            assert(data@[origin as int].x < data@[best as int].x);
        }
        let from = data[origin];
        let dy: i128 = data[best].y as i128 - from.y as i128;
        let dx: i128 = data[best].x as i128 - from.x as i128;
        let mut index: usize = origin;
        while index < best
            invariant
                n == data.len(),
                origin <= index <= best,
                best < n,
                valid_series(data@),
                baseline.len() == index,
                from == data[origin as int],
                dy == rise(data@, origin as int, best as int),
                dx == run(data@, origin as int, best as int),
                dx > 0,
                -2 * COORD_LIMIT <= dy <= 2 * COORD_LIMIT,
                admissible(from),
                admissible(data@[best as int]),
                best == next_vertex(data@, origin as int),
                governing_vertex(data@, 0, origin as int) == origin,
                index > 0 ==> baseline[0] == data[0],
                forall|j: int|
                    origin < j <= n - 1 ==> !#[trigger] lower_slope(
                        data@,
                        origin as int,
                        j,
                        best as int,
                    ),
                forall|k: int|
                    0 <= k < index ==> (#[trigger] baseline[k]) == (Point2D {
                        x: data[k].x,
                        y: baseline_level(data@, k) as i64,
                    }),
                forall|k: int|
                    0 <= k < index ==> admissible(#[trigger] baseline[k]) && baseline[k].y
                        <= data[k].y,
            decreases best - index,
        {
            let at = data[index];
            let part: i128 = at.x as i128 - from.x as i128;
            proof {
                assert(admissible(data@[index as int]));
                if index > origin {
                    assert(data@[origin as int].x < data@[index as int].x);
                }
                assert(data@[index as int].x < data@[best as int].x);
                lemma_product_bound(dy as int, part as int, 2_000_000_000_000, 2_000_000_000_000);
                assert(-4_000_000_000_000_000_000_000_000 <= dy * part
                    <= 4_000_000_000_000_000_000_000_000);
                lemma_interpolation_between(dy as int, part as int, dx as int);
                lemma_governing_from(data@, 0, origin as int, index as int);
                if index == origin {
                    assert(dy * part == 0) by (nonlinear_arith)
                        requires
                            part == 0,
                    ;
                    lemma_trunc_div_bounds(0, dx as int);
                    assert(trunc_div(0, dx as int) == 0) by (nonlinear_arith)
                        requires
                            dx > 0,
                            crate::fixed::magnitude(trunc_div(0, dx as int)) * dx <= 0,
                    ;
                } else {
                    assert(!lower_slope(data@, origin as int, index as int, best as int));
                    assert(rise(data@, origin as int, best as int) * run(
                        data@,
                        origin as int,
                        index as int,
                    ) <= rise(data@, origin as int, index as int) * run(
                        data@,
                        origin as int,
                        best as int,
                    ));
                    lemma_trunc_div_upper(
                        dy * part,
                        dx as int,
                        rise(data@, origin as int, index as int),
                    );
                }
            }
            let level: i128 = from.y as i128 + (dy * part) / dx;
            baseline.push(Point2D { x: at.x, y: level as i64 });
            index += 1;
        }
        proof {
            lemma_governing_from(data@, 0, origin as int, best as int);
            if best + 1 < n {
                lemma_least_steep(data@, best as int, n - 1);
            }
            assert(governing_vertex(data@, best as int, best as int) == best);
            assert(governing_vertex(data@, origin as int, best as int) == best);
        }
        origin = best;
    }
    proof {
        assert(admissible(data@[origin as int]));
    }
    baseline.push(data[origin]);
    proof {
        assert(baseline@ =~= baseline_of(data@));
        assert forall|k: int| 0 <= k < data.len() implies (#[trigger] baseline[k]).y
            == baseline_level(data@, k) by {
            lemma_baseline_level(data@, k);
        }
        assert forall|a: int, b: int| 0 <= a < b < baseline@.len() implies baseline@[a].x
            < baseline@[b].x by {
            assert(data@[a].x < data@[b].x);
        }
    }
    baseline
}

} // verus!
