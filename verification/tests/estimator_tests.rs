use battery_graph::estimator::{estimate, EstimateError};
use battery_graph::state::{levels_equal, BatteryState};

fn s(ts: u32, level: f32, charging: bool) -> BatteryState {
    BatteryState::new(ts, level.to_bits(), charging)
}

#[test]
fn trailing_rate_example() {
    // Samples at t=0 (80%) and t=301 (70%): the threshold is 1, so the
    // reference is the t=0 sample.
    let h = vec![s(0, 80.0, false), s(301, 70.0, false)];
    let r = estimate(&h).unwrap();
    assert_eq!(r, 0);
    // The quotient the caller then takes, in single precision:
    let reference = &h[r];
    let last = &h[h.len() - 1];
    let dt = (last.get_timestamp() - reference.get_timestamp()) as f64;
    let dl = (f32::from_bits(last.get_level_bits())
        - f32::from_bits(reference.get_level_bits())) as f64;
    let rate = dl / dt;
    assert!((rate - (-0.0332)).abs() < 1e-3, "rate {}", rate);
    let remaining = f32::from_bits(last.get_level_bits()) as f64 / rate.abs();
    assert!((remaining - 2107.0).abs() < 1.0, "remaining {}", remaining);
}

#[test]
fn short_history_gives_insufficient_window() {
    // Only 120 seconds of history: no sample is older than the threshold.
    let h = vec![s(0, 80.0, false), s(120, 70.0, false)];
    assert_eq!(estimate(&h).unwrap_err(), EstimateError::InsufficientWindow);
}

#[test]
fn single_sample_gives_insufficient_window() {
    let h = vec![s(1000, 80.0, false)];
    assert_eq!(estimate(&h).unwrap_err(), EstimateError::InsufficientWindow);
}

#[test]
fn exact_window_span_is_still_insufficient() {
    // The reference must be strictly older than last - 300.
    let h = vec![s(1, 80.0, false), s(301, 70.0, false)];
    assert_eq!(estimate(&h).unwrap_err(), EstimateError::InsufficientWindow);
}

#[test]
fn flat_level_gives_undefined_forecast() {
    let h = vec![s(0, 70.0, false), s(301, 70.0, false)];
    assert_eq!(estimate(&h).unwrap_err(), EstimateError::UndefinedForecast);
}

#[test]
fn signed_zero_levels_count_as_flat() {
    let h = vec![s(0, -0.0, false), s(301, 0.0, false)];
    assert_eq!(estimate(&h).unwrap_err(), EstimateError::UndefinedForecast);
}

#[test]
fn reference_is_the_most_recent_old_enough_sample() {
    let h = vec![s(0, 90.0, false), s(50, 85.0, false), s(400, 70.0, false)];
    assert_eq!(estimate(&h).unwrap(), 1);
}

#[test]
fn charging_history_estimates_too() {
    let h = vec![s(0, 40.0, true), s(400, 55.0, true)];
    let r = estimate(&h).unwrap();
    assert_eq!(r, 0);
    let rate = (f32::from_bits(h[1].get_level_bits()) - f32::from_bits(h[0].get_level_bits()))
        as f64 / 400.0;
    assert!(rate > 0.0);
}

#[test]
fn level_equality_matches_single_precision_subtraction() {
    let values = [
        0.0f32.to_bits(),
        (-0.0f32).to_bits(),
        70.0f32.to_bits(),
        70.00001f32.to_bits(),
        f32::INFINITY.to_bits(),
        f32::NEG_INFINITY.to_bits(),
        f32::NAN.to_bits(),
        0x0000_0001,
        (-70.0f32).to_bits(),
    ];
    for &a in values.iter() {
        for &b in values.iter() {
            let expected = (f32::from_bits(a) - f32::from_bits(b)) == 0.0;
            assert_eq!(
                levels_equal(a, b),
                expected,
                "patterns {:#010x} {:#010x}",
                a,
                b
            );
        }
    }
}
