//! Peak calling for chromatography traces.
//!
//! A trace is smoothed, its baseline is stretched under it, it is cut into
//! peaks, and the peaks are matched against a table of expected substances,
//! by retention time or, under a calibration curve, by glucose units.
//!
//! Every quantity (time, intensity, slope, area, glucose units, tolerance)
//! is an integer number of raw steps, `fixed::SCALE` steps to the unit.
//! Coordinates of a trace are at most `fixed::COORD_LIMIT` in magnitude; all
//! arithmetic is exact up to a stated rounding toward zero and cannot
//! overflow.
//!
//! - `vector`: points and slopes.
//! - `series`: admission of raw points, smoothing, windows of time, the
//!   discrete derivative.
//! - `baseline`: the baseline under a trace.
//! - `segmenter`: areas, and the walk that cuts a trace into peaks.
//! - `spline`: the calibration curve and the test that admits a fit.
//! - `ladder`: the knots that a dextran ladder gives to the calibration.
//! - `reference`, `component`: expected substances, peaks, and what
//!   matching makes of them.
//! - `matcher`, `merge`: the greedy pairing and the ordered merge.
//! - `chromatography`: a sample, which keeps all of the above up to date.

pub mod baseline;
pub mod chromatography;
pub mod component;
pub mod fixed;
pub mod ladder;
pub mod matcher;
pub mod merge;
pub mod reference;
pub mod segmenter;
pub mod series;
pub mod spline;
pub mod vector;
