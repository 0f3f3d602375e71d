//! The fan curve engine: evaluating a user curve at a temperature reading,
//! lowering a user curve into the hardware (pmfw) representation, and
//! validating a curve.
//!
//! All three operations are pure functions over the data model in
//! [`crate::curve`]; their contracts pin the result down exactly.

use vstd::prelude::*;
use vstd::arithmetic::div_mod::{
    lemma_div_is_ordered, lemma_div_denominator, lemma_div_multiples_vanish,
    lemma_div_pos_is_pos,
};
use vstd::arithmetic::mul::{
    lemma_mul_inequality, lemma_mul_is_commutative, lemma_mul_is_associative,
    lemma_mul_left_inequality, lemma_mul_nonnegative, lemma_mul_is_distributive_sub_other_way,
    lemma_mul_basics,
};
use crate::curve::{FanCurve, FanCurveRanges, PmfwCurve, Temperature, sorted_strict};
use crate::error::FanCurveError;

verus! {

/// Millidegrees truncated toward zero to whole degrees, matching how a
/// fractional reading is narrowed before the curve lookup.
pub open spec fn milli_to_deg(m: int) -> int {
    if m >= 0 {
        m / 1000
    } else {
        -((-m) / 1000)
    }
}

/// Clamps a value into the duty-cycle byte range `0..=255`.
pub open spec fn clamp_byte(v: int) -> int {
    if v < 0 {
        0
    } else if v > 255 {
        255
    } else {
        v
    }
}

/// A fan-speed ratio in thousandths scaled to a duty-cycle byte:
/// `ratio * 255`, truncated, clamped into the byte range.
pub open spec fn ratio_to_pwm(r: int) -> int {
    clamp_byte((255 * r) / 1000)
}

/// Linear interpolation between curve points `l` and `h` at whole-degree
/// temperature `c`, scaled to a duty-cycle byte. The interpolated ratio is
/// `l.1 + (h.1 - l.1) * (c - l.0) / (h.0 - l.0)` (in thousandths), computed
/// exactly as the rational `num / den` below.
pub open spec fn interp_pwm(l: (i32, i32), h: (i32, i32), c: int) -> int
    recommends
        l.0 < h.0,
{
    let den = h.0 - l.0;
    let num = l.1 * den + (h.1 - l.1) * (c - l.0);
    clamp_byte((255 * num) / (1000 * den))
}

/// How many points of `ps` have a temperature strictly below `c`. On a
/// sorted curve this is the index of the first point at or above `c`.
pub open spec fn count_below(ps: Seq<(i32, i32)>, c: int) -> int
    decreases ps.len(),
{
    if ps.len() == 0 {
        0
    } else {
        (if ps[0].0 < c {
            1int
        } else {
            0int
        }) + count_below(ps.skip(1), c)
    }
}

/// The duty-cycle byte a curve yields for a reading: 255 when the reading is
/// beyond its critical threshold; otherwise the nearest point at or below the
/// current temperature and the nearest point at or above it are looked up,
/// and the ratio is interpolated between them (or held at the endpoint when
/// only one side exists) and scaled to a byte.
pub open spec fn spec_pwm_at(ps: Seq<(i32, i32)>, current: int, crit: Option<i32>) -> int
    recommends
        sorted_strict(ps),
        ps.len() > 0,
{
    if crit matches Some(cr) && current > cr {
        255
    } else {
        let c = milli_to_deg(current);
        let k = count_below(ps, c);
        if k == 0 {
            ratio_to_pwm(ps[0].1 as int)
        } else if k == ps.len() {
            ratio_to_pwm(ps[ps.len() - 1].1 as int)
        } else {
            interp_pwm(ps[k - 1], ps[k], c)
        }
    }
}

/// On a sorted curve, an index `i` splitting the points into those below `c`
/// and those at or above `c` equals `count_below`.
proof fn lemma_count_below_characterizes(ps: Seq<(i32, i32)>, c: int, i: int)
    requires
        sorted_strict(ps),
        0 <= i <= ps.len(),
        forall|j: int| 0 <= j < i ==> (#[trigger] ps[j]).0 < c,
        forall|j: int| i <= j < ps.len() ==> (#[trigger] ps[j]).0 >= c,
    ensures
        count_below(ps, c) == i,
    decreases ps.len(),
{
    if ps.len() == 0 {
    } else {
        let tail = ps.skip(1);
        assert(forall|j: int| 0 <= j < tail.len() ==> tail[j] == ps[j + 1]);
        if i == 0 {
            lemma_count_below_characterizes(tail, c, 0);
        } else {
            lemma_count_below_characterizes(tail, c, i - 1);
        }
    }
}

/// `count_below` stays within the curve's index range.
proof fn lemma_count_below_bounds(ps: Seq<(i32, i32)>, c: int)
    ensures
        0 <= count_below(ps, c) <= ps.len(),
    decreases ps.len(),
{
    if ps.len() > 0 {
        lemma_count_below_bounds(ps.skip(1), c);
    }
}

impl FanCurve {
    /// Evaluates the curve at a temperature reading, yielding a PWM duty
    /// cycle byte.
    ///
    /// The reading must carry a current temperature and the curve must have
    /// at least one point; both are invariants the caller owes, not runtime
    /// conditions.
    pub fn pwm_at_temp(&self, temp: Temperature) -> (pwm: u8)
        requires
            self.wf(),
            self.points@.len() > 0,
            temp.current is Some,
        ensures
            pwm == spec_pwm_at(self.points@, temp.current->0 as int, temp.crit),
    {
        let current = match temp.current {
            Some(c) => c,
            None => {
                proof {
                    assert(false);
                }
                0
            },
        };

        // Last-resort safety clamp: beyond the critical threshold the fan is
        // driven at full speed regardless of the curve's shape.
        if let Some(crit) = temp.crit {
            if current > crit {
                return 255;
            }
        }

        // Narrow millidegrees to whole degrees, truncating toward zero.
        let c: i32 = if current >= 0 {
            ((current as u32) / 1000) as i32
        } else {
            let mag: u32 = ((-(current as i64)) as u32) / 1000;
            -(mag as i32)
        };
        proof {
            assert(c as int == milli_to_deg(current as int));
        }

        // Index of the first point at or above `c`; the points before it are
        // strictly below.
        let n = self.points.len();
        let mut k: usize = 0;
        while k < n && self.points[k].0 < c
            invariant
                0 <= k <= n,
                n == self.points@.len(),
                self.wf(),
                forall|j: int| 0 <= j < k ==> (#[trigger] self.points@[j]).0 < c,
            decreases n - k,
        {
            k += 1;
        }
        proof {
            assert forall|j: int| k <= j < n implies (#[trigger] self.points@[j]).0 >= c by {
                if j > k {
                    assert(self.points@[k as int].0 < self.points@[j].0);
                }
            }
            lemma_count_below_characterizes(self.points@, c as int, k as int);
        }

        if k == 0 {
            // Current temperature is at or below the lowest point: hold it.
            ratio_to_pwm_exec(self.points[0].1)
        } else if k == n {
            // Current temperature is above the highest point: hold it.
            ratio_to_pwm_exec(self.points[n - 1].1)
        } else {
            let (lt, lr) = self.points[k - 1];
            let (ht, hr) = self.points[k];
            assert(lt < ht);
            let den: i64 = (ht as i64) - (lt as i64);
            proof {
                assert(-0x8000_0000_0000_0000_0000 <= (lr as int) * (den as int)
                    <= 0x8000_0000_0000_0000_0000) by (nonlinear_arith)
                    requires
                        -0x8000_0000 <= lr as int <= 0x8000_0000,
                        0 <= den as int <= 0x1_0000_0000,
                ;
                assert(-0x8000_0000_0000_0000_0000
                    <= ((hr as int) - (lr as int)) * ((c as int) - (lt as int))
                    <= 0x8000_0000_0000_0000_0000) by (nonlinear_arith)
                    requires
                        -0x1_0000_0000 <= (hr as int) - (lr as int) <= 0x1_0000_0000,
                        -0x1_0000_0000 <= (c as int) - (lt as int) <= 0x1_0000_0000,
                ;
            }
            let num: i128 = (lr as i128) * (den as i128)
                + ((hr as i128) - (lr as i128)) * ((c as i128) - (lt as i128));
            scaled_ratio_to_pwm(num, den)
        }
    }
}

/// A fan-speed ratio in thousandths converted to a whole percent:
/// `ratio * 100`, truncated, clamped into the byte range.
pub open spec fn ratio_to_percent(r: int) -> int {
    clamp_byte(r / 10)
}

/// The point's temperature lies within the allowed temperature range.
pub open spec fn point_temp_ok(p: (i32, i32), ranges: FanCurveRanges) -> bool {
    ranges.temperature_range.0 <= p.0 <= ranges.temperature_range.1
}

/// The point's computed speed percent lies within the allowed speed range.
pub open spec fn point_speed_ok(p: (i32, i32), ranges: FanCurveRanges) -> bool {
    ranges.speed_range.0 <= ratio_to_percent(p.1 as int) <= ranges.speed_range.1
}

/// The point lies within both allowed ranges.
pub open spec fn point_ok(p: (i32, i32), ranges: FanCurveRanges) -> bool {
    point_temp_ok(p, ranges) && point_speed_ok(p, ranges)
}

/// The index of the first point that violates an allowed range (the curve's
/// length when every point is legal).
pub open spec fn first_bad(ps: Seq<(i32, i32)>, ranges: FanCurveRanges) -> int
    decreases ps.len(),
{
    if ps.len() == 0 {
        0
    } else if !point_ok(ps[0], ranges) {
        0
    } else {
        1 + first_bad(ps.skip(1), ranges)
    }
}

/// The error reported for an illegal point: its temperature when that is out
/// of range, else its computed speed percent.
pub open spec fn point_error(p: (i32, i32), ranges: FanCurveRanges) -> FanCurveError {
    if !point_temp_ok(p, ranges) {
        FanCurveError::TemperatureOutOfRange {
            temp: p.0,
            min: ranges.temperature_range.0,
            max: ranges.temperature_range.1,
        }
    } else {
        FanCurveError::SpeedOutOfRange {
            speed: ratio_to_percent(p.1 as int) as u8,
            min: ranges.speed_range.0,
            max: ranges.speed_range.1,
        }
    }
}

/// A prefix of legal points followed by an illegal one pins `first_bad` down.
proof fn lemma_first_bad_characterizes(ps: Seq<(i32, i32)>, ranges: FanCurveRanges, i: int)
    requires
        0 <= i <= ps.len(),
        forall|j: int| 0 <= j < i ==> point_ok(#[trigger] ps[j], ranges),
        i < ps.len() ==> !point_ok(ps[i], ranges),
    ensures
        first_bad(ps, ranges) == i,
    decreases ps.len(),
{
    if ps.len() > 0 {
        let tail = ps.skip(1);
        assert(forall|j: int| 0 <= j < tail.len() ==> tail[j] == ps[j + 1]);
        if i == 0 {
        } else {
            assert(point_ok(ps[0], ranges));
            lemma_first_bad_characterizes(tail, ranges, i - 1);
        }
    }
}

impl FanCurve {
    /// Lowers the user curve into the hardware's native representation,
    /// against the hardware curve currently read from the device.
    ///
    /// Succeeds if and only if the point counts match, the hardware allows
    /// curve modifications, and every point lies within both allowed ranges;
    /// otherwise the error names the first offending value and its allowed
    /// bound.
    pub fn into_pmfw_curve(self, current_pmfw_curve: PmfwCurve) -> (r: Result<
        PmfwCurve,
        FanCurveError,
    >)
        ensures
            current_pmfw_curve.points@.len() != self.points@.len() ==> r == Err::<
                PmfwCurve,
                _,
            >(
                FanCurveError::PointCountMismatch {
                    supported: current_pmfw_curve.points@.len() as usize,
                    given: self.points@.len() as usize,
                },
            ),
            current_pmfw_curve.points@.len() == self.points@.len()
                && current_pmfw_curve.allowed_ranges is None ==> r == Err::<
                PmfwCurve,
                _,
            >(FanCurveError::NotSupported),
            current_pmfw_curve.allowed_ranges matches Some(ranges) ==> (
            current_pmfw_curve.points@.len() == self.points@.len() ==> {
                let bad = first_bad(self.points@, ranges);
                if bad == self.points@.len() {
                    r matches Ok(out) && out.points@ == self.points@.map(
                        |j: int, p: (i32, i32)| (p.0, ratio_to_percent(p.1 as int) as u8),
                    ) && out.allowed_ranges == Some(ranges)
                } else {
                    r == Err::<PmfwCurve, _>(point_error(self.points@[bad], ranges))
                }
            }),
            r is Ok <==> (current_pmfw_curve.points@.len() == self.points@.len()
                && current_pmfw_curve.allowed_ranges is Some && forall|j: int|
                0 <= j < self.points@.len() ==> point_ok(
                    #[trigger] self.points@[j],
                    current_pmfw_curve.allowed_ranges->0,
                )),
    {
        if current_pmfw_curve.points.len() != self.points.len() {
            return Err(
                FanCurveError::PointCountMismatch {
                    supported: current_pmfw_curve.points.len(),
                    given: self.points.len(),
                },
            );
        }
        let ranges = match current_pmfw_curve.allowed_ranges {
            Some(ranges) => ranges,
            None => {
                return Err(FanCurveError::NotSupported);
            },
        };
        let min_percent = ranges.speed_range.0;
        let max_percent = ranges.speed_range.1;
        let min_temp = ranges.temperature_range.0;
        let max_temp = ranges.temperature_range.1;

        let n = self.points.len();
        let mut points: Vec<(i32, u8)> = Vec::new();
        let mut i: usize = 0;
        while i < n
            invariant
                0 <= i <= n,
                n == self.points@.len(),
                n == current_pmfw_curve.points@.len(),
                current_pmfw_curve.allowed_ranges matches Some(rs) && rs == ranges,
                min_percent == ranges.speed_range.0,
                max_percent == ranges.speed_range.1,
                min_temp == ranges.temperature_range.0,
                max_temp == ranges.temperature_range.1,
                forall|j: int| 0 <= j < i ==> point_ok(#[trigger] self.points@[j], ranges),
                points@ == self.points@.subrange(0, i as int).map(
                    |j: int, p: (i32, i32)| (p.0, ratio_to_percent(p.1 as int) as u8),
                ),
            decreases n - i,
        {
            let (temp, ratio) = self.points[i];
            let custom_percent = ratio_to_percent_exec(ratio);

            if !(min_temp <= temp && temp <= max_temp) {
                proof {
                    lemma_first_bad_characterizes(self.points@, ranges, i as int);
                }
                return Err(
                    FanCurveError::TemperatureOutOfRange { temp, min: min_temp, max: max_temp },
                );
            }
            if !(min_percent <= custom_percent && custom_percent <= max_percent) {
                proof {
                    lemma_first_bad_characterizes(self.points@, ranges, i as int);
                }
                return Err(
                    FanCurveError::SpeedOutOfRange {
                        speed: custom_percent,
                        min: min_percent,
                        max: max_percent,
                    },
                );
            }
            points.push((temp, custom_percent));
            proof {
                assert(points@ =~= self.points@.subrange(0, i as int + 1).map(
                    |j: int, p: (i32, i32)| (p.0, ratio_to_percent(p.1 as int) as u8),
                ));
            }
            i += 1;
        }
        proof {
            lemma_first_bad_characterizes(self.points@, ranges, n as int);
            assert(self.points@.subrange(0, n as int) =~= self.points@);
        }
        Ok(PmfwCurve { points, allowed_ranges: Some(ranges) })
    }

    /// Checks that every ratio on the curve lies within `[0, 1]`
    /// (represented as `0..=1000` thousandths).
    pub fn validate(&self) -> (r: Result<(), FanCurveError>)
        ensures
            r matches Ok(_) <==> (forall|j: int|
                0 <= j < self.points@.len() ==> 0 <= (#[trigger] self.points@[j]).1 <= 1000),
            r is Err ==> r == Err::<(), _>(FanCurveError::RatioOutOfRange),
    {
        let n = self.points.len();
        let mut i: usize = 0;
        while i < n
            invariant
                0 <= i <= n,
                n == self.points@.len(),
                forall|j: int| 0 <= j < i ==> 0 <= (#[trigger] self.points@[j]).1 <= 1000,
            decreases n - i,
        {
            let ratio = self.points[i].1;
            if !(0 <= ratio && ratio <= 1000) {
                return Err(FanCurveError::RatioOutOfRange);
            }
            i += 1;
        }
        Ok(())
    }
}

/// Converts a fan-speed ratio in thousandths to a whole percent, truncating
/// and clamping exactly as the conversion spec does.
fn ratio_to_percent_exec(r: i32) -> (percent: u8)
    ensures
        percent == ratio_to_percent(r as int),
{
    if r <= 0 {
        proof {
            lemma_div_is_ordered(r as int, 0, 10);
        }
        0
    } else {
        let q: u32 = (r as u32) / 10;
        if q > 255 {
            255
        } else {
            q as u8
        }
    }
}

/// Scales a ratio in thousandths to a duty-cycle byte, truncating and
/// clamping exactly as the evaluation spec does.
fn ratio_to_pwm_exec(r: i32) -> (pwm: u8)
    ensures
        pwm == ratio_to_pwm(r as int),
{
    if r <= 0 {
        proof {
            lemma_div_is_ordered(255 * r, 0, 1000);
        }
        0
    } else {
        let q: u64 = (255u64 * (r as u64)) / 1000;
        if q > 255 {
            255
        } else {
            q as u8
        }
    }
}

/// Scales the exact interpolated ratio `num / den` (in thousandths, with
/// `den > 0`) to a duty-cycle byte, truncating and clamping as
/// [`interp_pwm`] does.
fn scaled_ratio_to_pwm(num: i128, den: i64) -> (pwm: u8)
    requires
        0 < den <= 0x1_0000_0000,
        -0x1_0000_0000_0000_0000_0000 <= num <= 0x1_0000_0000_0000_0000_0000,
    ensures
        pwm == clamp_byte((255 * num) / (1000 * (den as int))),
{
    if num <= 0 {
        proof {
            let full_den: int = 1000 * (den as int);
            lemma_mul_inequality(num as int, 0, 255);
            lemma_mul_is_commutative(num as int, 255);
            lemma_div_is_ordered(255 * num, 0, full_den);
        }
        0
    } else {
        proof {
            assert(255 * num <= 255 * 0x1_0000_0000_0000_0000_0000) by {
                lemma_mul_inequality(num as int, 0x1_0000_0000_0000_0000_0000, 255);
                lemma_mul_is_commutative(num as int, 255);
                lemma_mul_is_commutative(0x1_0000_0000_0000_0000_0000, 255);
            }
            assert(1000 * (den as int) <= 1000 * 0x1_0000_0000) by {
                lemma_mul_inequality(den as int, 0x1_0000_0000, 1000);
                lemma_mul_is_commutative(den as int, 1000);
                lemma_mul_is_commutative(0x1_0000_0000, 1000);
            }
        }
        let scaled: u128 = 255u128 * (num as u128);
        let divisor: u128 = 1000u128 * (den as u128);
        let q: u128 = scaled / divisor;
        if q > 255 {
            255
        } else {
            q as u8
        }
    }
}

/// The ratios of `ps` are non-decreasing by temperature order.
pub open spec fn ratios_non_decreasing(ps: Seq<(i32, i32)>) -> bool {
    forall|i: int, j: int| 0 <= i < j < ps.len() ==> (#[trigger] ps[i]).1 <= (#[trigger] ps[j]).1
}

/// Every evaluation result is a duty-cycle byte.
pub proof fn lemma_pwm_range(ps: Seq<(i32, i32)>, current: int, crit: Option<i32>)
    ensures
        0 <= spec_pwm_at(ps, current, crit) <= 255,
{
}

/// Critical clamp: whenever the reading exceeds its critical threshold, the
/// result is exactly 255, regardless of the curve's shape.
pub proof fn lemma_critical_clamp(ps: Seq<(i32, i32)>, current: int, crit: i32)
    requires
        current > crit,
    ensures
        spec_pwm_at(ps, current, Some(crit)) == 255,
{
}

/// `count_below` splits a sorted curve: every point before it is strictly
/// below `c` and every point from it on is at or above `c`.
proof fn lemma_count_below_inverse(ps: Seq<(i32, i32)>, c: int)
    requires
        sorted_strict(ps),
    ensures
        forall|j: int| 0 <= j < count_below(ps, c) ==> (#[trigger] ps[j]).0 < c,
        forall|j: int| count_below(ps, c) <= j < ps.len() ==> (#[trigger] ps[j]).0 >= c,
    decreases ps.len(),
{
    lemma_count_below_bounds(ps, c);
    if ps.len() > 0 {
        let tail = ps.skip(1);
        assert(forall|j: int| 0 <= j < tail.len() ==> tail[j] == ps[j + 1]);
        lemma_count_below_bounds(tail, c);
        lemma_count_below_inverse(tail, c);
        let k = count_below(ps, c);
        if !(ps[0].0 < c) {
            // The head is at or above `c`, so every later point is too and
            // the tail's count must be zero.
            if count_below(tail, c) > 0 {
                assert(tail[0].0 < c);
                assert(ps[1].0 > ps[0].0);
                assert(false);
            }
        }
        assert forall|j: int| 0 <= j < k implies (#[trigger] ps[j]).0 < c by {
            if j > 0 {
                assert(tail[j - 1].0 < c);
            }
        }
        assert forall|j: int| k <= j < ps.len() implies (#[trigger] ps[j]).0 >= c by {
            if j > 0 {
                assert(tail[j - 1].0 >= c);
            }
        }
    }
}

/// Raising the cutoff temperature never lowers `count_below`.
proof fn lemma_count_below_monotone(ps: Seq<(i32, i32)>, c1: int, c2: int)
    requires
        c1 <= c2,
    ensures
        count_below(ps, c1) <= count_below(ps, c2),
    decreases ps.len(),
{
    if ps.len() > 0 {
        lemma_count_below_monotone(ps.skip(1), c1, c2);
    }
}

/// Truncation of millidegrees to whole degrees preserves order.
proof fn lemma_milli_to_deg_monotone(m1: int, m2: int)
    requires
        m1 <= m2,
    ensures
        milli_to_deg(m1) <= milli_to_deg(m2),
{
    if m1 >= 0 {
        lemma_div_is_ordered(m1, m2, 1000);
    } else if m2 < 0 {
        lemma_div_is_ordered(-m2, -m1, 1000);
    } else {
        lemma_div_pos_is_pos(-m1, 1000);
        lemma_div_pos_is_pos(m2, 1000);
    }
}

/// Scaling a ratio to a duty-cycle byte preserves order.
proof fn lemma_ratio_to_pwm_monotone(r1: int, r2: int)
    requires
        r1 <= r2,
    ensures
        ratio_to_pwm(r1) <= ratio_to_pwm(r2),
{
    lemma_mul_left_inequality(255, r1, r2);
    lemma_div_is_ordered(255 * r1, 255 * r2, 1000);
}

/// Cancelling the interpolation denominator: a ratio placed over `den`
/// scales to the same byte value as the plain ratio.
proof fn lemma_scaled_cancel(r: int, den: int)
    requires
        r >= 0,
        den > 0,
    ensures
        (255 * (r * den)) / (1000 * den) == (255 * r) / 1000,
{
    lemma_mul_nonnegative(255 * r, den);
    lemma_mul_is_associative(255, r, den);
    lemma_div_denominator((255 * r) * den, den, 1000);
    lemma_mul_is_commutative(255 * r, den);
    lemma_div_multiples_vanish(255 * r, den);
    assert(den * 1000 == 1000 * den);
}

/// The interpolated byte between two points lies between the bytes of the
/// two endpoint ratios, when the lower ratio does not exceed the higher.
proof fn lemma_interp_bounds(l: (i32, i32), h: (i32, i32), c: int)
    requires
        l.0 < h.0,
        l.0 < c <= h.0,
        l.1 <= h.1,
    ensures
        ratio_to_pwm(l.1 as int) <= interp_pwm(l, h, c),
        interp_pwm(l, h, c) <= ratio_to_pwm(h.1 as int),
{
    let den = h.0 - l.0;
    let lr = l.1 as int;
    let hr = h.1 as int;
    let num = lr * den + (hr - lr) * (c - l.0);
    lemma_mul_nonnegative(hr - lr, c - l.0);
    lemma_mul_left_inequality(den, 0, 255);
    assert((hr - lr) * (c - l.0) <= (hr - lr) * den) by {
        if hr - lr > 0 {
            lemma_mul_left_inequality(hr - lr, c - l.0, den);
        } else {
            lemma_mul_basics(c - l.0);
            lemma_mul_basics(den);
        }
    }
    lemma_mul_is_distributive_sub_other_way(den, hr, lr);
    assert(lr * den <= num <= hr * den);

    // Lower bound: the byte of the lower ratio.
    if lr < 0 {
        lemma_mul_left_inequality(255, lr, 0);
        lemma_div_is_ordered(255 * lr, 0, 1000);
        assert(ratio_to_pwm(lr) == 0);
    } else {
        lemma_mul_nonnegative(lr, den);
        lemma_mul_left_inequality(255, lr * den, num);
        lemma_div_is_ordered(255 * (lr * den), 255 * num, 1000 * den);
        lemma_scaled_cancel(lr, den);
    }

    // Upper bound: the byte of the higher ratio.
    if num < 0 {
        lemma_mul_left_inequality(255, num, 0);
        lemma_div_is_ordered(255 * num, 0, 1000 * den);
        assert(interp_pwm(l, h, c) == 0);
    } else {
        assert(hr >= 0) by {
            if hr < 0 {
                lemma_mul_left_inequality(den, hr, 0);
                lemma_mul_is_commutative(hr, den);
            }
        }
        lemma_mul_left_inequality(255, num, hr * den);
        lemma_div_is_ordered(255 * num, 255 * (hr * den), 1000 * den);
        lemma_scaled_cancel(hr, den);
    }
}

/// Endpoint hold: at or below the curve's lowest point the result is that
/// point's ratio scaled to a byte; above the highest point it is the highest
/// point's ratio scaled to a byte. (Stated away from the critical clamp.)
pub proof fn lemma_endpoint_hold(ps: Seq<(i32, i32)>, current: int, crit: Option<i32>)
    requires
        sorted_strict(ps),
        ps.len() > 0,
        crit matches Some(cr) ==> current <= cr,
    ensures
        milli_to_deg(current) <= ps[0].0 ==> spec_pwm_at(ps, current, crit) == ratio_to_pwm(
            ps[0].1 as int,
        ),
        milli_to_deg(current) > ps[ps.len() - 1].0 ==> spec_pwm_at(ps, current, crit)
            == ratio_to_pwm(ps[ps.len() - 1].1 as int),
{
    let c = milli_to_deg(current);
    if c <= ps[0].0 {
        assert forall|j: int| 0 <= j < ps.len() implies (#[trigger] ps[j]).0 >= c by {
            if j > 0 {
                assert(ps[0].0 < ps[j].0);
            }
        }
        lemma_count_below_characterizes(ps, c, 0);
    }
    if c > ps[ps.len() - 1].0 {
        assert forall|j: int| 0 <= j < ps.len() implies (#[trigger] ps[j]).0 < c by {
            if j < ps.len() - 1 {
                assert(ps[j].0 < ps[ps.len() - 1].0);
            }
        }
        lemma_count_below_characterizes(ps, c, ps.len() as int);
    }
}

/// Evaluate monotonicity: on a curve whose ratios are non-decreasing by
/// temperature, the evaluated duty cycle is non-decreasing in the current
/// temperature, whatever the critical threshold.
pub proof fn lemma_evaluate_monotonic(ps: Seq<(i32, i32)>, c1: int, c2: int, crit: Option<i32>)
    requires
        sorted_strict(ps),
        ps.len() > 0,
        ratios_non_decreasing(ps),
        c1 <= c2,
    ensures
        spec_pwm_at(ps, c1, crit) <= spec_pwm_at(ps, c2, crit),
{
    lemma_pwm_range(ps, c1, crit);
    lemma_pwm_range(ps, c2, crit);
    if crit matches Some(cr) && c2 > cr {
        // The higher reading clamps to 255 and nothing exceeds 255.
    } else {
        let n = ps.len() as int;
        let d1 = milli_to_deg(c1);
        let d2 = milli_to_deg(c2);
        lemma_milli_to_deg_monotone(c1, c2);
        let k1 = count_below(ps, d1);
        let k2 = count_below(ps, d2);
        lemma_count_below_bounds(ps, d1);
        lemma_count_below_bounds(ps, d2);
        lemma_count_below_monotone(ps, d1, d2);
        lemma_count_below_inverse(ps, d1);
        lemma_count_below_inverse(ps, d2);
        if k1 == k2 {
            if 0 < k1 < n {
                let l = ps[k1 - 1];
                let h = ps[k1];
                let den = h.0 - l.0;
                let lr = l.1 as int;
                let hr = h.1 as int;
                let num1 = lr * den + (hr - lr) * (d1 - l.0);
                let num2 = lr * den + (hr - lr) * (d2 - l.0);
                assert((hr - lr) * (d1 - l.0) <= (hr - lr) * (d2 - l.0)) by {
                    if hr - lr > 0 {
                        lemma_mul_left_inequality(hr - lr, d1 - l.0, d2 - l.0);
                    } else {
                        lemma_mul_basics(d1 - l.0);
                        lemma_mul_basics(d2 - l.0);
                    }
                }
                lemma_mul_left_inequality(255, num1, num2);
                lemma_mul_left_inequality(den, 0, 1000);
                lemma_div_is_ordered(255 * num1, 255 * num2, 1000 * den);
            }
        } else {
            // The readings fall on different segments: chain through the
            // ratio at a point between them.
            let i1: int = if k1 < n {
                k1
            } else {
                n - 1
            };
            // The lower evaluation is at most the byte of ratio `ps[i1].1`.
            if k1 == 0 {
            } else if k1 < n {
                lemma_interp_bounds(ps[k1 - 1], ps[k1], d1);
            }
            // The higher evaluation is at least the byte of `ps[k2 - 1].1`.
            if k2 == n {
            } else {
                lemma_interp_bounds(ps[k2 - 1], ps[k2], d2);
            }
            assert(i1 <= k2 - 1);
            if i1 < k2 - 1 {
                assert(ps[i1].1 <= ps[k2 - 1].1);
            }
            lemma_ratio_to_pwm_monotone(ps[i1].1 as int, ps[k2 - 1].1 as int);
        }
    }
}

} // verus!
