//! Numbers, percentages, rates and plausible values.

use background_system_monitor::float::{Double, Single};
use background_system_monitor::metrics::{
    bytes_per_second, kelvin_to_celsius, percentage, valid_percent, valid_power, valid_temperature,
};
use background_system_monitor::time::{unix_timestamp, Duration, Instant};

fn double(value: f64) -> Double {
    Double { bits: value.to_bits() }
}

fn single(value: f32) -> Single {
    Single { bits: value.to_bits() }
}

fn value(number: Double) -> f64 {
    f64::from_bits(number.bits)
}

/// A fixed sequence of numbers with many bit lengths.
fn samples(count: usize) -> Vec<u64> {
    let mut state: u64 = 0x9E37_79B9_7F4A_7C15;
    let mut numbers = vec![0, 1, 2, 3, 100, u64::MAX, u64::MAX - 1, 1 << 53, (1 << 53) + 1, 1 << 63];
    while numbers.len() < count {
        state = state.wrapping_mul(6364136223846793005).wrapping_add(1442695040888963407);
        let shift = (state >> 58) as u32;
        numbers.push((state ^ (state << 21)) >> shift);
    }
    numbers
}

#[test]
fn percentage_returns_zero_for_unknown_total() {
    assert_eq!(value(percentage(100, 0)), 0.0);
}

#[test]
fn percentage_is_calculated_as_a_ratio() {
    assert_eq!(value(percentage(25, 100)), 25.0);
}

#[test]
fn percentage_agrees_with_the_hardware() {
    let numbers = samples(400);
    for &part in &numbers {
        for &total in &numbers {
            let expected = if total == 0 {
                0.0
            } else {
                (part as f64 / total as f64) * 100.0
            };
            assert_eq!(percentage(part, total).bits, expected.to_bits(), "{part} of {total}");
        }
    }
}

#[test]
fn percentage_is_bounded_and_ordered() {
    let numbers = samples(60);
    for &total in &numbers {
        assert_eq!(percentage(0, total).bits, 0);
        if total > 0 {
            assert_eq!(value(percentage(total, total)), 100.0);
        }
        for &part in &numbers {
            if part <= total {
                let percent = value(percentage(part, total));
                assert!((0.0..=100.0).contains(&percent));
                assert!(value(percentage(part / 2, total)) <= percent);
            }
        }
    }
}

#[test]
fn bytes_per_second_uses_the_refresh_interval() {
    assert_eq!(value(bytes_per_second(1_000, Duration::from_secs(2))), 500.0);
    assert_eq!(value(bytes_per_second(1_000, Duration::zero())), 0.0);
}

#[test]
fn bytes_per_second_agrees_with_the_hardware() {
    let numbers = samples(120);
    for &bytes in &numbers {
        for &secs in &numbers {
            for nanos in [0u32, 1, 7, 500_000_000, 999_999_999, (bytes % 1_000_000_000) as u32] {
                let elapsed = std::time::Duration::new(secs, nanos);
                let expected = if elapsed.is_zero() {
                    0.0
                } else {
                    bytes as f64 / elapsed.as_secs_f64()
                };
                let rate = bytes_per_second(bytes, Duration::new(secs, nanos));
                assert_eq!(rate.bits, expected.to_bits(), "{bytes} in {elapsed:?}");
            }
        }
    }
}

#[test]
fn more_bytes_are_no_lower_a_rate() {
    let elapsed = Duration::new(3, 250_000_000);
    assert!(value(bytes_per_second(10, elapsed)) <= value(bytes_per_second(11, elapsed)));
    assert_eq!(value(bytes_per_second(13, elapsed)), 4.0);
}

#[test]
fn kelvin_temperature_is_converted_to_celsius() {
    let temperature = kelvin_to_celsius(double(340.0)).expect("valid temperature");
    assert!((f32::from_bits(temperature.bits) - 66.85).abs() < 0.01);
}

#[test]
fn implausible_kelvin_temperature_is_rejected() {
    assert!(kelvin_to_celsius(double(f64::NAN)).is_none());
    assert!(kelvin_to_celsius(double(0.0)).is_none());
}

#[test]
fn kelvin_conversion_agrees_with_the_hardware() {
    let mut cases = vec![
        173.15, 173.14999999999998, 473.15, 473.15000000000003, 273.15, 273.15000000000003,
        273.1499999999999, 255.99999999999997, 256.0, f64::INFINITY, f64::NEG_INFINITY, -300.0,
        -0.0, f64::MIN_POSITIVE, f64::MAX,
    ];
    for number in samples(3000) {
        cases.push(150.0 + (number % 400_000_000_000) as f64 / 1_000_000_000.0);
        cases.push(f64::from_bits(number));
    }
    for kelvin in cases {
        let expected = if !kelvin.is_finite() || !(173.15..=473.15).contains(&kelvin) {
            None
        } else {
            Some((kelvin - 273.15) as f32)
        };
        let celsius = kelvin_to_celsius(double(kelvin));
        assert_eq!(celsius.map(|c| c.bits), expected.map(f32::to_bits), "{kelvin}");
    }
}

#[test]
fn plausible_values_agree_with_the_hardware() {
    let mut cases = vec![
        0.0, -0.0, 100.0, 100.00000000000001, 100.00001, 200.0, 200.00000001, 200.1, -50.0,
        -50.00000001, -50.1, 1e4, 10_000.1, 1e300, -1e300, 1e-40, -1e-40, 1e-46, 7e-46, 5e-324,
        f64::NAN, f64::INFINITY, f64::NEG_INFINITY, 16_777_217.0, 3.5e38,
    ];
    for number in samples(3000) {
        cases.push(f64::from_bits(number));
        cases.push(-((number % 30_000_000) as f64) / 1_000_003.0);
        cases.push((number % 30_000_000) as f64 / 1_007.0);
    }
    for value in cases {
        let narrow = |low: f32, high: f32| {
            let number = value as f32;
            (value.is_finite() && (low..=high).contains(&number)).then_some(number.to_bits())
        };
        assert_eq!(valid_percent(double(value)).map(|v| v.bits), narrow(0.0, 100.0), "{value}");
        assert_eq!(valid_temperature(double(value)).map(|v| v.bits), narrow(-50.0, 200.0));
        assert_eq!(valid_power(double(value)).map(|v| v.bits), narrow(0.0, 10_000.0));
    }
}

#[test]
fn single_conversions_agree_with_the_hardware() {
    for number in samples(5000) {
        let n = number as u32;
        assert_eq!(Single::from_u32(n).bits, (n as f32).to_bits());
        assert_eq!(Single::from_i32(n as i32).bits, (n as i32 as f32).to_bits());
    }
    assert_eq!(Single::from_i32(i32::MIN).bits, (i32::MIN as f32).to_bits());
    assert_eq!(Single::from_u32(16_777_217).bits, 16_777_216.0f32.to_bits());
    assert_eq!(Single::from_u32(16_777_219).bits, 16_777_220.0f32.to_bits());
}

#[test]
fn single_division_agrees_with_the_hardware() {
    for number in samples(5000) {
        let dividend = f32::from_bits((number ^ (number >> 32)) as u32);
        for divisor in [1.0f32, 2.0, 1000.0, 1_000_000.0, 32768.0, 0.5, 1e-40, 3.0, f32::MAX] {
            let quotient = single(dividend).divided_by(single(divisor));
            let expected = dividend / divisor;
            if expected.is_nan() {
                assert!(f32::from_bits(quotient.bits).is_nan());
            } else {
                assert_eq!(quotient.bits, expected.to_bits(), "{dividend} / {divisor}");
            }
        }
    }
}

#[test]
fn comparisons_agree_with_the_hardware() {
    let mut numbers: Vec<f64> = vec![
        0.0, -0.0, 1.0, -1.0, f64::INFINITY, f64::NEG_INFINITY, f64::NAN, 5e-324, -5e-324, f64::MAX,
    ];
    numbers.extend(samples(60).into_iter().map(f64::from_bits));
    for &left in &numbers {
        assert_eq!(double(left).is_finite(), left.is_finite());
        assert_eq!(single(left as f32).is_finite(), (left as f32).is_finite());
        for &right in &numbers {
            assert_eq!(double(left).is_at_most(double(right)), left <= right, "{left} {right}");
            let (near, far) = (left as f32, right as f32);
            assert_eq!(single(near).is_at_most(single(far)), near <= far);
            if !near.is_nan() && !far.is_nan() {
                assert_eq!(single(near).is_larger_than(single(far)), near.abs() > far.abs());
            }
        }
    }
}

#[test]
fn range_bounds_belong_to_the_range() {
    let (low, high) = (single(-50.0), single(200.0));
    assert!(single(-50.0).is_within(low, high));
    assert!(single(200.0).is_within(low, high));
    assert!(!single(200.00002).is_within(low, high));
    assert!(!single(f32::NAN).is_within(low, high));
    assert!(!single(f32::INFINITY).is_within(low, single(f32::INFINITY)));
}

#[test]
fn spans_of_time_are_exact() {
    let span = Duration::new(1, 2_500_000_000);
    assert_eq!(span.as_secs(), 3);
    assert_eq!(span.subsec_nanos(), 500_000_000);
    assert!(span.reaches_secs(3));
    assert!(!span.reaches_secs(4));
    assert!(Duration::zero().is_zero());
    assert!(!span.is_zero());
    let earlier = Instant { since_origin: Duration::new(1, 700_000_000) };
    let later = Instant { since_origin: Duration::new(3, 200_000_000) };
    assert_eq!(later.duration_since(earlier), Duration::new(1, 500_000_000));
    assert_eq!(earlier.duration_since(later), Duration::zero());
    assert_eq!(earlier.duration_since(earlier), Duration::zero());
}

#[test]
fn timestamp_is_zero_before_the_epoch() {
    assert_eq!(unix_timestamp(Some(Duration::new(1_700_000_000, 999_999_999))), 1_700_000_000);
    assert_eq!(unix_timestamp(None), 0);
}
