//! Data model for fan control: a user fan curve, a temperature reading, and
//! the hardware's native (pmfw) curve representation.
//!
//! Temperatures are carried in millidegrees Celsius and fan-speed ratios in
//! thousandths (so `1000` stands for a ratio of one, i.e. full speed), which
//! keeps every computation exact.

use vstd::prelude::*;

verus! {

/// A temperature reading from a hardware monitor.
///
/// All fields are in millidegrees Celsius. `current` is required for curve
/// evaluation; `crit` is the critical threshold above which maximum cooling
/// is forced; `crit_hyst` is carried for provenance and not used by the
/// evaluation logic.
#[derive(Clone, Copy, PartialEq, Eq, Structural, Debug)]
pub struct Temperature {
    /// The current temperature.
    pub current: Option<i32>,
    /// The critical temperature threshold.
    pub crit: Option<i32>,
    /// The critical-temperature hysteresis.
    pub crit_hyst: Option<i32>,
}

/// A user-defined fan curve: an ordered mapping from temperature (whole
/// degrees Celsius) to a fan-speed ratio in thousandths.
///
/// The points are kept sorted by strictly increasing temperature, which is
/// what [`FanCurve::wf`] states; every constructor of this crate establishes
/// it. Ratios outside `[0, 1000]` make the curve invalid but are representable
/// (validity is checked by [`FanCurve::validate`], not enforced here).
#[derive(Clone, Debug)]
pub struct FanCurve {
    /// The curve points as `(temperature, ratio in thousandths)` pairs.
    pub points: Vec<(i32, i32)>,
}

/// The inclusive value ranges that the GPU firmware accepts in curve points.
#[derive(Clone, Copy, Debug)]
pub struct FanCurveRanges {
    /// Inclusive temperature range (whole degrees Celsius) allowed in points.
    pub temperature_range: (i32, i32),
    /// Inclusive fan-speed range (percent) allowed in points.
    pub speed_range: (u8, u8),
}

/// The GPU firmware's native fan curve: a fixed-cardinality sequence of
/// `(temperature, speed percent)` points, plus the ranges the firmware
/// accepts. `allowed_ranges` is `None` when the firmware does not support
/// curve customization at all.
#[derive(Clone, Debug)]
pub struct PmfwCurve {
    /// Curve points in the `(temperature, speed percent)` format.
    pub points: Vec<(i32, u8)>,
    /// Allowed value ranges; `None` when curve changes are not supported.
    pub allowed_ranges: Option<FanCurveRanges>,
}

/// The temperatures of `ps` are strictly increasing, so every temperature
/// occurs at most once and the points are sorted.
pub open spec fn sorted_strict(ps: Seq<(i32, i32)>) -> bool {
    forall|i: int, j: int| 0 <= i < j < ps.len() ==> (#[trigger] ps[i]).0 < (#[trigger] ps[j]).0
}

impl FanCurve {
    /// Well-formedness: points sorted by strictly increasing temperature.
    pub open spec fn wf(&self) -> bool {
        sorted_strict(self.points@)
    }

    /// Builds a curve from points sorted by strictly increasing temperature;
    /// returns `None` when the input is not sorted that way.
    pub fn from_points(points: Vec<(i32, i32)>) -> (r: Option<FanCurve>)
        ensures
            r matches Some(c) ==> c.wf() && c.points@ == points@,
            r is Some <==> sorted_strict(points@),
    {
        let n = points.len();
        let mut i: usize = 1;
        while i < n
            invariant
                1 <= i <= n || n == 0,
                n == points.len(),
                forall|p: int, q: int| 0 <= p < q < i ==> (#[trigger] points@[p]).0 < (#[trigger] points@[q]).0,
            decreases n - i,
        {
            if points[i - 1].0 >= points[i].0 {
                assert(!sorted_strict(points@));
                return None;
            }
            assert forall|p: int, q: int| 0 <= p < q < i + 1 implies (#[trigger] points@[p]).0 < (#[trigger] points@[q]).0 by {
                if q == i && p < i - 1 {
                    assert(points@[p].0 < points@[i - 1].0);
                }
            }
            i += 1;
        }
        Some(FanCurve { points })
    }

    /// The number of points on the curve.
    pub fn len(&self) -> (n: usize)
        ensures
            n == self.points@.len(),
    {
        self.points.len()
    }

    /// Whether the curve has no points.
    pub fn is_empty(&self) -> (b: bool)
        ensures
            b <==> self.points@.len() == 0,
    {
        self.points.len() == 0
    }
}

/// The baseline curve the engine ships with: ratios rising from 0.3 at 40
/// degrees to full speed at 80 degrees.
pub open spec fn default_curve_points() -> Seq<(i32, i32)> {
    seq![(40i32, 300i32), (50i32, 350i32), (60i32, 500i32), (70i32, 750i32), (80i32, 1000i32)]
}

impl Default for FanCurve {
    /// The engine's built-in baseline curve.
    fn default() -> (r: FanCurve)
        ensures
            r.wf(),
            r.points@ == default_curve_points(),
    {
        let points: Vec<(i32, i32)> = vec![
            (40i32, 300i32),
            (50i32, 350i32),
            (60i32, 500i32),
            (70i32, 750i32),
            (80i32, 1000i32),
        ];
        assert(points@ =~= default_curve_points());
        assert(sorted_strict(default_curve_points())) by {
            let ps = default_curve_points();
            assert(ps[0].0 < ps[1].0);
        }
        FanCurve { points }
    }
}

} // verus!
