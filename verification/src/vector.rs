//! Points of a trace and the slope between two of them.

use vstd::prelude::*;
use crate::fixed::{clamp_i64, saturate, trunc_div, SCALE};

verus! {

/// A sample: time `x` and intensity `y`, in raw steps.
#[derive(Clone, Copy, Debug, PartialEq, Eq)]
pub struct Point2D {
    pub x: i64,
    pub y: i64,
}

impl Default for Point2D {
    /// The origin.
    fn default() -> (p: Self)
        ensures
            p == (Point2D { x: 0, y: 0 }),
    {
        Point2D { x: 0, y: 0 }
    }
}

/// Slope of the line from `(x0, y0)` to `(x1, y1)` in raw steps, rounded
/// toward zero and saturated at the ends of `i64`. The two times differ.
pub open spec fn slope(x0: int, y0: int, x1: int, y1: int) -> int {
    if x1 > x0 {
        clamp_i64(trunc_div((y1 - y0) * SCALE, x1 - x0))
    } else {
        clamp_i64(trunc_div((y0 - y1) * SCALE, x0 - x1))
    }
}

/// Each point lies later in time than every point before it.
pub open spec fn increasing_times(points: Seq<Point2D>) -> bool {
    forall|i: int, j: int| 0 <= i < j < points.len() ==> points[i].x < points[j].x
}

/// A point in the plane of a trace.
pub trait Vector2: Sized {
    /// Time coordinate.
    spec fn time(&self) -> int;

    /// Intensity coordinate.
    spec fn level(&self) -> int;

    fn new(x: i64, y: i64) -> (p: Self)
        ensures
            p.time() == x,
            p.level() == y,
    ;

    fn x(&self) -> (v: i64)
        ensures
            v == self.time(),
    ;

    fn y(&self) -> (v: i64)
        ensures
            v == self.level(),
    ;

    /// Slope of the line from this point to `rhs`.
    fn gradient(&self, rhs: &Self) -> (g: i64)
        requires
            self.time() != rhs.time(),
        ensures
            g == slope(self.time(), self.level(), rhs.time(), rhs.level()),
    {
        let x0 = self.x();
        let x1 = rhs.x();
        let y0 = self.y();
        let y1 = rhs.y();
        let scale: i128 = SCALE as i128;
        if x1 > x0 {
            let rise: i128 = (y1 as i128 - y0 as i128) * scale;
            let run: i128 = x1 as i128 - x0 as i128;
            saturate(rise / run)
        } else {
            let rise: i128 = (y0 as i128 - y1 as i128) * scale;
            let run: i128 = x0 as i128 - x1 as i128;
            saturate(rise / run)
        }
    }
}

impl Vector2 for Point2D {
    open spec fn time(&self) -> int {
        self.x as int
    }

    open spec fn level(&self) -> int {
        self.y as int
    }

    fn new(x: i64, y: i64) -> (p: Self) {
        Point2D { x, y }
    }

    fn x(&self) -> (v: i64) {
        self.x
    }

    fn y(&self) -> (v: i64) {
        self.y
    }
}

} // verus!
