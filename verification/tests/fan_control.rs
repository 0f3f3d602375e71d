//! Fan curve engine tests: evaluation, conversion to the hardware curve,
//! validation, and the error messages.

use lact_daemon::curve::{FanCurve, FanCurveRanges, PmfwCurve, Temperature};
use lact_daemon::error::FanCurveError;

fn simple_pwm(temp_milli: i32) -> u8 {
    let curve = FanCurve::from_points(vec![(0, 0), (100, 1000)]).unwrap();
    let temp = Temperature {
        current: Some(temp_milli),
        crit: Some(150_000),
        crit_hyst: Some(-100_000),
    };
    curve.pwm_at_temp(temp)
}

#[test]
fn simple_curve_middle() {
    let pwm = simple_pwm(45_000);
    assert_eq!(pwm, 114);
}

#[test]
fn simple_curve_start() {
    let pwm = simple_pwm(0);
    assert_eq!(pwm, 0);
}

#[test]
fn simple_curve_end() {
    let pwm = simple_pwm(100_000);
    assert_eq!(pwm, 255);
}

#[test]
fn simple_curve_before() {
    let pwm = simple_pwm(-5_000);
    assert_eq!(pwm, 0);
}

#[test]
fn simple_curve_after() {
    let pwm = simple_pwm(105_000);
    assert_eq!(pwm, 255);
}

#[test]
fn curve_crit() {
    let curve = FanCurve::from_points(vec![(20, 0), (80, 100_000)]).unwrap();
    let temp = Temperature {
        current: Some(100_000),
        crit: Some(90_000),
        crit_hyst: Some(0),
    };
    let pwm = curve.pwm_at_temp(temp);
    assert_eq!(pwm, 255);
}

#[test]
fn uneven_curve() {
    let curve = FanCurve::from_points(vec![(30, 0), (40, 100), (55, 900), (61, 1000)]).unwrap();
    let pwm_at_temp = |current: i32| {
        let temp = Temperature {
            current: Some(current),
            crit: Some(90_000),
            crit_hyst: Some(0),
        };
        curve.pwm_at_temp(temp)
    };

    assert_eq!(pwm_at_temp(30_000), 0);
    assert_eq!(pwm_at_temp(35_000), 12);
    assert_eq!(pwm_at_temp(40_000), 25);
    assert_eq!(pwm_at_temp(47_000), 120);
    assert_eq!(pwm_at_temp(52_000), 188);
    assert_eq!(pwm_at_temp(53_000), 202);
    assert_eq!(pwm_at_temp(54_000), 215);
}

#[test]
fn default_curve() {
    let curve = FanCurve::default();
    let pwm_at_temp = |current: i32| {
        let temp = Temperature {
            current: Some(current),
            crit: Some(90_000),
            crit_hyst: Some(0),
        };
        curve.pwm_at_temp(temp)
    };
    assert_eq!(pwm_at_temp(40_000), 76);
    assert_eq!(pwm_at_temp(60_000), 127);
    assert_eq!(pwm_at_temp(65_000), 159);
    assert_eq!(pwm_at_temp(70_000), 191);
    assert_eq!(pwm_at_temp(79_000), 248);
    assert_eq!(pwm_at_temp(85_000), 255);
    assert_eq!(pwm_at_temp(100_000), 255);
}

#[test]
fn default_curve_to_pmfw() {
    let curve = FanCurve::default();
    let current_pmfw_curve = PmfwCurve {
        points: vec![(0, 0); 5],
        allowed_ranges: Some(FanCurveRanges {
            temperature_range: (25, 100),
            speed_range: (30, 100),
        }),
    };
    let pmfw_curve = curve.into_pmfw_curve(current_pmfw_curve).unwrap();
    let expected_points = vec![(40, 30), (50, 35), (60, 50), (70, 75), (80, 100)];
    assert_eq!(expected_points, pmfw_curve.points);
}

#[test]
fn curve_outside_of_limits_to_pmfw() {
    let curve_invalid_temp =
        FanCurve::from_points(vec![(20, 400), (50, 350), (60, 500), (70, 750), (80, 1000)])
            .unwrap();
    let curve_invalid_speed =
        FanCurve::from_points(vec![(40, 100), (50, 350), (60, 500), (70, 750), (80, 1000)])
            .unwrap();

    let make_pmfw_curve = || PmfwCurve {
        points: vec![(0, 0); 5],
        allowed_ranges: Some(FanCurveRanges {
            temperature_range: (25, 100),
            speed_range: (30, 100),
        }),
    };
    assert_eq!(
        "Temperature 20℃ is outside of the allowed range 25℃ to 100℃",
        curve_invalid_temp
            .into_pmfw_curve(make_pmfw_curve())
            .unwrap_err()
            .message()
    );
    assert_eq!(
        "Speed 10% is outside of the allowed range 30% to 100%",
        curve_invalid_speed
            .into_pmfw_curve(make_pmfw_curve())
            .unwrap_err()
            .message()
    );
}

#[test]
fn point_count_mismatch_to_pmfw() {
    let curve = FanCurve::from_points(vec![(40, 300), (80, 1000)]).unwrap();
    let current_pmfw_curve = PmfwCurve {
        points: vec![(0, 0); 5],
        allowed_ranges: Some(FanCurveRanges {
            temperature_range: (25, 100),
            speed_range: (30, 100),
        }),
    };
    let err = curve.into_pmfw_curve(current_pmfw_curve).unwrap_err();
    assert_eq!(
        err,
        FanCurveError::PointCountMismatch {
            supported: 5,
            given: 2
        }
    );
    assert_eq!("The GPU only supports 5 curve points, given 2", err.message());
}

#[test]
fn unsupported_curve_to_pmfw() {
    let curve = FanCurve::default();
    let current_pmfw_curve = PmfwCurve {
        points: vec![(0, 0); 5],
        allowed_ranges: None,
    };
    let err = curve.into_pmfw_curve(current_pmfw_curve).unwrap_err();
    assert_eq!(err, FanCurveError::NotSupported);
    assert_eq!(
        "The GPU does not allow fan curve modifications",
        err.message()
    );
}

#[test]
fn negative_temperature_error_message() {
    let curve = FanCurve::from_points(vec![(-5, 500), (60, 750), (70, 800), (80, 900), (90, 1000)])
        .unwrap();
    let current_pmfw_curve = PmfwCurve {
        points: vec![(0, 0); 5],
        allowed_ranges: Some(FanCurveRanges {
            temperature_range: (0, 100),
            speed_range: (30, 100),
        }),
    };
    let err = curve.into_pmfw_curve(current_pmfw_curve).unwrap_err();
    assert_eq!(
        "Temperature -5℃ is outside of the allowed range 0℃ to 100℃",
        err.message()
    );
}

#[test]
fn validate_accepts_unit_range() {
    let curve = FanCurve::from_points(vec![(0, 0), (50, 500), (100, 1000)]).unwrap();
    assert!(curve.validate().is_ok());
}

#[test]
fn validate_rejects_out_of_range_ratio() {
    let curve = FanCurve::from_points(vec![(20, 0), (80, 100_000)]).unwrap();
    let err = curve.validate().unwrap_err();
    assert_eq!(err, FanCurveError::RatioOutOfRange);
    assert_eq!(
        "Fan speed percentage must be between 0 and 1",
        err.message()
    );
}

#[test]
fn from_points_rejects_unsorted() {
    assert!(FanCurve::from_points(vec![(40, 300), (40, 350)]).is_none());
    assert!(FanCurve::from_points(vec![(50, 300), (40, 350)]).is_none());
}

#[test]
fn evaluation_is_monotonic_on_default_curve() {
    let curve = FanCurve::default();
    let mut last: u8 = 0;
    for current in (-10_000..120_000).step_by(500) {
        let temp = Temperature {
            current: Some(current),
            crit: None,
            crit_hyst: None,
        };
        let pwm = curve.pwm_at_temp(temp);
        assert!(pwm >= last, "pwm dropped from {last} to {pwm} at {current}");
        last = pwm;
    }
}

#[test]
fn endpoints_hold_beyond_curve() {
    let curve = FanCurve::default();
    let eval = |current: i32| {
        curve.pwm_at_temp(Temperature {
            current: Some(current),
            crit: None,
            crit_hyst: None,
        })
    };
    // Below the lowest point the lowest ratio (0.3) holds; above the highest
    // the highest (1.0) holds.
    assert_eq!(eval(-40_000), 76);
    assert_eq!(eval(10_000), 76);
    assert_eq!(eval(40_000), 76);
    assert_eq!(eval(81_000), 255);
    assert_eq!(eval(200_000), 255);
}
