//! Domain validation errors of the fan curve engine, each carrying the
//! offending value and the allowed bound, and rendering to the exact
//! human-readable message the daemon surfaces.

use vstd::prelude::*;
use vstd::string::StringExecFns;
use crate::text::{dec_int, push_i64_dec, push_u64_dec};

verus! {

/// A domain validation error of the fan curve engine.
#[derive(Clone, Copy, PartialEq, Eq, Structural, Debug)]
pub enum FanCurveError {
    /// The user curve's point count does not match the hardware curve's
    /// fixed cardinality.
    PointCountMismatch {
        /// How many points the hardware curve holds.
        supported: usize,
        /// How many points the user curve holds.
        given: usize,
    },
    /// The hardware does not allow fan curve modifications at all.
    NotSupported,
    /// A point's temperature falls outside the allowed temperature range.
    TemperatureOutOfRange {
        /// The offending temperature (whole degrees Celsius).
        temp: i32,
        /// The lowest allowed temperature.
        min: i32,
        /// The highest allowed temperature.
        max: i32,
    },
    /// A point's computed speed percent falls outside the allowed speed range.
    SpeedOutOfRange {
        /// The offending speed (percent).
        speed: u8,
        /// The lowest allowed speed.
        min: u8,
        /// The highest allowed speed.
        max: u8,
    },
    /// A curve ratio lies outside `[0, 1]`.
    RatioOutOfRange,
}

impl FanCurveError {
    /// The error's human-readable message, as a sequence of characters.
    pub open spec fn message_spec(&self) -> Seq<char> {
        match *self {
            FanCurveError::PointCountMismatch { supported, given } => "The GPU only supports "@
                + dec_int(supported as int) + " curve points, given "@ + dec_int(given as int),
            FanCurveError::NotSupported => "The GPU does not allow fan curve modifications"@,
            FanCurveError::TemperatureOutOfRange { temp, min, max } => "Temperature "@ + dec_int(
                temp as int,
            ) + "\u{2103} is outside of the allowed range "@ + dec_int(min as int)
                + "\u{2103} to "@ + dec_int(max as int) + "\u{2103}"@,
            FanCurveError::SpeedOutOfRange { speed, min, max } => "Speed "@ + dec_int(speed as int)
                + "% is outside of the allowed range "@ + dec_int(min as int) + "% to "@ + dec_int(
                max as int,
            ) + "%"@,
            FanCurveError::RatioOutOfRange => "Fan speed percentage must be between 0 and 1"@,
        }
    }

    /// Renders the error's message.
    pub fn message(&self) -> (r: String)
        ensures
            r@ == self.message_spec(),
    {
        let mut s = String::new();
        match *self {
            FanCurveError::PointCountMismatch { supported, given } => {
                s.append("The GPU only supports ");
                push_u64_dec(&mut s, supported as u64);
                s.append(" curve points, given ");
                push_u64_dec(&mut s, given as u64);
            },
            FanCurveError::NotSupported => {
                s.append("The GPU does not allow fan curve modifications");
            },
            FanCurveError::TemperatureOutOfRange { temp, min, max } => {
                s.append("Temperature ");
                push_i64_dec(&mut s, temp as i64);
                s.append("\u{2103} is outside of the allowed range ");
                push_i64_dec(&mut s, min as i64);
                s.append("\u{2103} to ");
                push_i64_dec(&mut s, max as i64);
                s.append("\u{2103}");
            },
            FanCurveError::SpeedOutOfRange { speed, min, max } => {
                s.append("Speed ");
                push_u64_dec(&mut s, speed as u64);
                s.append("% is outside of the allowed range ");
                push_i64_dec(&mut s, min as i64);
                s.append("% to ");
                push_i64_dec(&mut s, max as i64);
                s.append("%");
            },
            FanCurveError::RatioOutOfRange => {
                s.append("Fan speed percentage must be between 0 and 1");
            },
        }
        proof {
            assert(s@ =~= self.message_spec());
        }
        s
    }
}

} // verus!
