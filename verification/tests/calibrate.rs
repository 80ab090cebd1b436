use rust_str_bench::calibrate::{
    calibrate, calibrate_constant_cost, calibration_step, CalibrationStep,
    CALIBRATION_THRESHOLD_NANOS,
};
use std::cell::Cell;

#[test]
fn step_accepts_only_above_threshold() {
    assert_eq!(calibration_step(4, 500_000_000), CalibrationStep::Retry(8));
    assert_eq!(calibration_step(4, 500_000_001), CalibrationStep::Accept);
    assert_eq!(calibration_step(1, 0), CalibrationStep::Retry(2));
    assert_eq!(calibration_step(1, u128::MAX), CalibrationStep::Accept);
}

#[test]
fn step_accepts_a_count_that_cannot_double() {
    assert_eq!(calibration_step(usize::MAX / 2 + 1, 0), CalibrationStep::Accept);
    assert_eq!(calibration_step(usize::MAX / 2, 0), CalibrationStep::Retry(usize::MAX - 1));
}

#[test]
fn slow_candidate_gets_batch_of_one() {
    assert_eq!(calibrate_constant_cost(600_000_000), 1);
    assert_eq!(calibrate_constant_cost(500_000_001), 1);
}

#[test]
fn threshold_itself_is_not_enough() {
    assert_eq!(calibrate_constant_cost(500_000_000), 2);
    assert_eq!(calibrate_constant_cost(250_000_000), 4);
}

#[test]
fn batch_size_is_smallest_power_of_two_over_threshold() {
    for t in [1u64, 3, 7, 100, 999, 1_000, 123_456, 1_000_000, 499_999_999] {
        let batch = calibrate_constant_cost(t);
        assert!(batch.is_power_of_two());
        assert!(batch as u128 * t as u128 > CALIBRATION_THRESHOLD_NANOS);
        assert!((batch / 2) as u128 * t as u128 <= CALIBRATION_THRESHOLD_NANOS);
    }
    assert_eq!(calibrate_constant_cost(100), 1 << 23);
    assert_eq!(calibrate_constant_cost(1), 1 << 29);
}

#[test]
fn costlier_candidates_never_get_larger_batches() {
    let costs = [1u64, 2, 10, 1_000, 1_000_000, 400_000_000, 2_000_000_000];
    for pair in costs.windows(2) {
        assert!(calibrate_constant_cost(pair[0]) >= calibrate_constant_cost(pair[1]));
    }
}

#[test]
fn free_candidates_end_at_the_largest_count() {
    assert_eq!(calibrate_constant_cost(0), usize::MAX / 2 + 1);
}

#[test]
fn calibrate_doubles_until_a_trial_is_long_enough() {
    let seen: Cell<Vec<usize>> = Cell::new(Vec::new());
    let batch = calibrate(|count: usize| {
        let mut v = seen.take();
        v.push(count);
        seen.set(v);
        if count >= 32 {
            600_000_000
        } else {
            1_000
        }
    });
    assert_eq!(batch, 32);
    assert_eq!(seen.take(), vec![1, 2, 4, 8, 16, 32]);
}
