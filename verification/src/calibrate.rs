//! Calibration: how many invocations of every candidate make one batch.
//!
//! A trial runs every candidate `count` times and is timed as a whole. The
//! count starts at one and doubles until a trial takes longer than half a
//! second; that count is the batch size of the whole run.

use vstd::prelude::*;

verus! {

/// A trial has to take longer than this, in nanoseconds, to be accepted.
pub const CALIBRATION_THRESHOLD_NANOS: u128 = 500_000_000;

/// `n` is one of 1, 2, 4, 8, ...
pub open spec fn is_power_of_two(n: int) -> bool
    decreases n,
{
    if n <= 1 {
        n == 1
    } else {
        n % 2 == 0 && is_power_of_two(n / 2)
    }
}

/// What calibration does after a trial.
#[derive(Clone, Copy, Debug, PartialEq, Eq, Structural)]
pub enum CalibrationStep {
    /// The count of the trial is the batch size.
    Accept,
    /// Run another trial with this count.
    Retry(usize),
}

/// A count above half of `usize::MAX` cannot be doubled.
pub open spec fn can_double(count: int) -> bool {
    count <= usize::MAX / 2
}

/// The trial is accepted when it took longer than the threshold, or when
/// its count cannot be doubled any more.
pub open spec fn accepts(count: int, elapsed_nanos: int) -> bool {
    elapsed_nanos > CALIBRATION_THRESHOLD_NANOS || !can_double(count)
}

/// Decides what follows a trial of `count` repeats that took
/// `elapsed_nanos`.
pub fn calibration_step(count: usize, elapsed_nanos: u128) -> (step: CalibrationStep)
    ensures
        accepts(count as int, elapsed_nanos as int) ==> step == CalibrationStep::Accept,
        !accepts(count as int, elapsed_nanos as int) ==> step == CalibrationStep::Retry(
            (2 * count) as usize,
        ) && 2 * count <= usize::MAX,
{
    if elapsed_nanos > CALIBRATION_THRESHOLD_NANOS || count > usize::MAX / 2 {
        CalibrationStep::Accept
    } else {
        CalibrationStep::Retry(2 * count)
    }
}

/// Finds the batch size with `trial`, which runs one trial of the given
/// count and returns the nanoseconds it took.
///
/// The result is a power of two. Its trial took longer than the threshold
/// (unless the count could not grow any further), and the trial of every
/// smaller power of two was run before it and did not.
pub fn calibrate<F: Fn(usize) -> u128>(trial: F) -> (batch_size: usize)
    requires
        forall|count: usize| count >= 1 ==> call_requires(trial, (count,)),
    ensures
        batch_size >= 1,
        is_power_of_two(batch_size as int),
        !can_double(batch_size as int) || exists|elapsed: u128|
            call_ensures(trial, (batch_size,), elapsed) && elapsed > CALIBRATION_THRESHOLD_NANOS,
        forall|count: usize|
            1 <= count < batch_size && is_power_of_two(count as int) ==> exists|elapsed: u128|
                #[trigger] call_ensures(trial, (count,), elapsed) && elapsed
                    <= CALIBRATION_THRESHOLD_NANOS,
{
    let mut count: usize = 1;
    loop
        invariant
            forall|count: usize| count >= 1 ==> call_requires(trial, (count,)),
            count >= 1,
            is_power_of_two(count as int),
            forall|c: usize|
                1 <= c < count && is_power_of_two(c as int) ==> exists|elapsed: u128|
                    #[trigger] call_ensures(trial, (c,), elapsed) && elapsed
                        <= CALIBRATION_THRESHOLD_NANOS,
        decreases usize::MAX - count,
    {
        let elapsed: u128 = trial(count);
        match calibration_step(count, elapsed) {
            CalibrationStep::Accept => {
                return count;
            },
            CalibrationStep::Retry(next) => {
                proof {
                    lemma_powers_of_two_between(count as int);
                }
                count = next;
            },
        }
    }
}

/// There is no power of two strictly between a power of two and its double.
pub proof fn lemma_powers_of_two_between(p: int)
    requires
        is_power_of_two(p),
    ensures
        is_power_of_two(2 * p),
        forall|c: int| p < c < 2 * p ==> !is_power_of_two(c),
    decreases p,
{
    assert(is_power_of_two((2 * p) / 2));
    if p > 1 {
        lemma_powers_of_two_between(p / 2);
        assert forall|c: int| p < c < 2 * p implies !is_power_of_two(c) by {
            assert(p % 2 == 0 && p == 2 * (p / 2));
            if c % 2 == 0 {
                assert(p / 2 < c / 2 < 2 * (p / 2));
                assert(!is_power_of_two(c / 2));
            }
        }
    }
}

/// The count that calibration settles on when it starts at `count` and one
/// pass through all candidates always takes `per_pass_nanos`, so that a trial
/// of `c` repeats takes `c * per_pass_nanos`.
pub open spec fn calibrated_from(count: int, per_pass_nanos: int) -> int
    decreases usize::MAX - count,
{
    if count < 1 || accepts(count, count * per_pass_nanos) {
        count
    } else {
        calibrated_from(2 * count, per_pass_nanos)
    }
}

/// The batch size found for candidates of constant cost.
pub open spec fn calibrated_batch_size(per_pass_nanos: int) -> int {
    calibrated_from(1, per_pass_nanos)
}

/// Calibration from a power of two ends on a power of two that is accepted,
/// after passing only counts that are not.
pub proof fn lemma_calibrated_from(count: int, per_pass_nanos: int)
    requires
        is_power_of_two(count),
        count <= usize::MAX,
    ensures
        is_power_of_two(calibrated_from(count, per_pass_nanos)),
        count <= calibrated_from(count, per_pass_nanos) <= usize::MAX,
        accepts(
            calibrated_from(count, per_pass_nanos),
            calibrated_from(count, per_pass_nanos) * per_pass_nanos,
        ),
        forall|c: int|
            count <= c < calibrated_from(count, per_pass_nanos) && #[trigger] is_power_of_two(c)
                ==> !accepts(c, c * per_pass_nanos),
    decreases usize::MAX - count,
{
    if !accepts(count, count * per_pass_nanos) {
        lemma_powers_of_two_between(count);
        lemma_calibrated_from(2 * count, per_pass_nanos);
    }
}

/// If a power of two `target` is accepted and no power of two from `count`
/// up to it is, calibration from `count` ends on `target`.
pub proof fn lemma_calibrated_from_is(count: int, target: int, per_pass_nanos: int)
    requires
        is_power_of_two(count),
        is_power_of_two(target),
        count <= target,
        accepts(target, target * per_pass_nanos),
        forall|c: int|
            count <= c < target && #[trigger] is_power_of_two(c) ==> !accepts(
                c,
                c * per_pass_nanos,
            ),
    ensures
        calibrated_from(count, per_pass_nanos) == target,
    decreases target - count,
{
    if count < target {
        lemma_powers_of_two_between(count);
        lemma_calibrated_from_is(2 * count, target, per_pass_nanos);
    }
}

/// For candidates of constant cost the batch size is a power of two whose
/// trial takes longer than the threshold (or is the largest count there is),
/// and it is the smallest such power: the trial of half the batch size does
/// not take longer than the threshold.
pub proof fn lemma_calibrated_batch_size(per_pass_nanos: int)
    requires
        per_pass_nanos >= 0,
    ensures
        is_power_of_two(calibrated_batch_size(per_pass_nanos)),
        1 <= calibrated_batch_size(per_pass_nanos) <= usize::MAX,
        calibrated_batch_size(per_pass_nanos) * per_pass_nanos > CALIBRATION_THRESHOLD_NANOS
            || !can_double(calibrated_batch_size(per_pass_nanos)),
        calibrated_batch_size(per_pass_nanos) > 1 ==> (calibrated_batch_size(per_pass_nanos) / 2)
            * per_pass_nanos <= CALIBRATION_THRESHOLD_NANOS,
{
    lemma_calibrated_from(1, per_pass_nanos);
    let b = calibrated_batch_size(per_pass_nanos);
    if b > 1 {
        assert(is_power_of_two(b / 2));
    }
}

/// Calibration is monotonic: candidates that cost more never get a larger
/// batch.
pub proof fn lemma_calibration_monotonic(cheap_nanos: int, costly_nanos: int)
    requires
        0 <= cheap_nanos <= costly_nanos,
    ensures
        calibrated_batch_size(cheap_nanos) >= calibrated_batch_size(costly_nanos),
{
    lemma_calibrated_from_monotonic(1, cheap_nanos, costly_nanos);
}

proof fn lemma_calibrated_from_monotonic(count: int, cheap_nanos: int, costly_nanos: int)
    requires
        is_power_of_two(count),
        count <= usize::MAX,
        0 <= cheap_nanos <= costly_nanos,
    ensures
        calibrated_from(count, cheap_nanos) >= calibrated_from(count, costly_nanos),
    decreases usize::MAX - count,
{
    assert(count * cheap_nanos <= count * costly_nanos) by (nonlinear_arith)
        requires
            count >= 1,
            0 <= cheap_nanos <= costly_nanos,
    ;
    if !accepts(count, count * cheap_nanos) {
        lemma_powers_of_two_between(count);
        if accepts(count, count * costly_nanos) {
            lemma_calibrated_from(2 * count, cheap_nanos);
        } else {
            lemma_calibrated_from_monotonic(2 * count, cheap_nanos, costly_nanos);
        }
    }
}

/// Runs the calibration for candidates of constant cost: a trial of `count`
/// repeats takes `count * per_pass_nanos` nanoseconds.
pub fn calibrate_constant_cost(per_pass_nanos: u64) -> (batch_size: usize)
    ensures
        batch_size == calibrated_batch_size(per_pass_nanos as int),
{
    let trial = |count: usize| -> (elapsed: u128)
        ensures
            elapsed == count * per_pass_nanos,
        {
            assert(count * per_pass_nanos <= 0xffff_ffff_ffff_ffff * 0xffff_ffff_ffff_ffff)
                by (nonlinear_arith)
                requires
                    count <= 0xffff_ffff_ffff_ffff,
                    per_pass_nanos <= 0xffff_ffff_ffff_ffff,
            ;
            count as u128 * per_pass_nanos as u128
        };
    let batch_size: usize = calibrate(trial);
    proof {
        assert forall|c: int|
            1 <= c < batch_size && #[trigger] is_power_of_two(c) implies !accepts(
            c,
            c * per_pass_nanos,
        ) by {
            let cu = c as usize;
            let elapsed = choose|elapsed: u128|
                call_ensures(trial, (cu,), elapsed) && elapsed <= CALIBRATION_THRESHOLD_NANOS;
            assert(elapsed == c * per_pass_nanos);
            lemma_powers_of_two_between(c);
        }
        lemma_calibrated_from_is(1, batch_size as int, per_pass_nanos as int);
    }
    batch_size
}

} // verus!
