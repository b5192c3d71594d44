//! The dextran ladder: the peaks of a calibration sample that serve as
//! knots of the calibration curve, with their ranks.

use vstd::prelude::*;
use crate::component::Peak;
use crate::fixed::{clamp_i64, saturate, SCALE};
use crate::vector::Point2D;

verus! {

/// Rank of the first step of a ladder.
pub const FIRST_RANK: i64 = 2;

/// Peak `i` is a step of the ladder: it stands above the baseline and
/// higher than every peak that elutes after it.
pub open spec fn dominant(peaks: Seq<Peak>, i: int) -> bool {
    &&& peaks[i].height > 0
    &&& forall|j: int| i < j < peaks.len() ==> (#[trigger] peaks[j]).height < peaks[i].height
}

/// Retention times of the steps among the first `n` peaks, in order of
/// elution.
pub open spec fn step_times(peaks: Seq<Peak>, n: int) -> Seq<i64>
    decreases n,
{
    if n <= 0 {
        Seq::empty()
    } else if dominant(peaks, n - 1) {
        step_times(peaks, n - 1).push(peaks[n - 1].retention_point.x)
    } else {
        step_times(peaks, n - 1)
    }
}

/// The rank of step `k` of a ladder, in raw steps.
pub open spec fn rank(k: int) -> int {
    clamp_i64((k + FIRST_RANK) * SCALE)
}

/// The knots of the calibration: each step of the ladder at its retention
/// time, with ranks that count up from `FIRST_RANK` in order of elution.
pub open spec fn ladder_of(peaks: Seq<Peak>) -> Seq<Point2D> {
    let times = step_times(peaks, peaks.len() as int);
    Seq::new(times.len(), |k: int| Point2D { x: times[k], y: rank(k) as i64 })
}

/// Picks the steps of the ladder from the peaks of a calibration sample and
/// ranks them.
pub fn glucose_ladder(peaks: &Vec<Peak>) -> (knots: Vec<Point2D>)
    ensures
        knots@ == ladder_of(peaks@),
{
    let n = peaks.len();
    let mut keep: Vec<bool> = Vec::new();
    let mut k: usize = 0;
    while k < n
        invariant
            k <= n,
            keep.len() == k,
            forall|j: int| 0 <= j < k ==> !#[trigger] keep[j],
        decreases n - k,
    {
        keep.push(false);
        k += 1;
    }
    let mut highest: i64 = 0;
    let mut i: usize = n;
    while i > 0
        invariant
            i <= n,
            n == peaks.len(),
            keep.len() == n,
            highest >= 0,
            forall|j: int| 0 <= j < i ==> !#[trigger] keep[j],
            forall|j: int| i <= j < n ==> (#[trigger] peaks[j]).height <= highest,
            highest == 0 || exists|j: int| i <= j < n && (#[trigger] peaks[j]).height == highest,
            forall|j: int| i <= j < n ==> #[trigger] keep[j] == dominant(peaks@, j),
        decreases i,
    {
        i -= 1;
        let height = peaks[i].height;
        if height > highest {
            assert(dominant(peaks@, i as int));
            keep.set(i, true);
            highest = height;
        } else {
            assert(!dominant(peaks@, i as int));
        }
    }
    let mut knots: Vec<Point2D> = Vec::new();
    let mut k: usize = 0;
    while k < n
        invariant
            k <= n,
            n == peaks.len(),
            keep.len() == n,
            forall|j: int| 0 <= j < n ==> #[trigger] keep[j] == dominant(peaks@, j),
            knots.len() == step_times(peaks@, k as int).len(),
            knots.len() <= k,
            forall|m: int|
                0 <= m < knots.len() ==> #[trigger] knots[m] == (Point2D {
                    x: step_times(peaks@, k as int)[m],
                    y: rank(m) as i64,
                }),
        decreases n - k,
    {
        if keep[k] {
            let position: i128 = knots.len() as i128;
            assert(0 <= position <= usize::MAX);
            assert((position + FIRST_RANK) * SCALE == (position + 2) * 1_000_000) by (nonlinear_arith)
                requires
                    FIRST_RANK == 2,
                    SCALE == 1_000_000,
            ;
            let level = saturate((position + 2) * 1_000_000);
            knots.push(Point2D { x: peaks[k].retention_point.x, y: level });
        }
        k += 1;
    }
    assert(knots@ =~= ladder_of(peaks@));
    knots
}

} // verus!
