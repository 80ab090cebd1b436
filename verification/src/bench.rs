//! Candidates and the timing of their batches.
//!
//! A candidate is a name and a closure without arguments. The functions here
//! run candidates against the wall clock; what they measure is whatever the
//! machine gives, so their contracts speak only of what holds of every run.

use vstd::prelude::*;
use core::time::Duration;
use std::time::Instant;
use crate::calibrate::{calibrate, is_power_of_two};

verus! {

/// `std::time::Instant`, a reading of the monotonic clock. Nothing inside it
/// is visible to proofs.
#[verifier::external_type_specification]
#[verifier::external_body]
pub struct ExInstant(Instant);

/// `Instant::now` reads the clock. Nothing is claimed of the reading.
pub assume_specification[ Instant::now ]() -> (now: Instant)
;

/// `Instant::elapsed` is the time since the reading was taken. Nothing is
/// claimed of it.
pub assume_specification[ Instant::elapsed ](start: &Instant) -> (elapsed: Duration)
;

/// `Duration::as_nanos` is the whole duration in nanoseconds. Nothing is
/// claimed of the number.
pub assume_specification[ Duration::as_nanos ](duration: &Duration) -> (nanos: u128)
;

/// `std::hint::black_box` hands its argument back, and keeps the compiler
/// from reasoning about it.
pub assume_specification<T>[ core::hint::black_box::<T> ](dummy: T) -> (kept: T)
    ensures
        kept == dummy,
;

/// One unit of work under comparison: a display name and the closure that
/// does the work.
pub struct Benchmark<F> {
    name: String,
    run: F,
}

impl<R, F: Fn() -> R> Benchmark<F> {
    /// The display name.
    pub closed spec fn name_spec(&self) -> Seq<char> {
        self.name@
    }

    /// The closure that does the work.
    pub closed spec fn work(&self) -> F {
        self.run
    }

    /// A candidate that is shown as `name` and runs `f`.
    pub fn new(name: &str, f: F) -> (benchmark: Benchmark<F>)
        ensures
            benchmark.name_spec() == name@,
            benchmark.work() == f,
    {
        Benchmark { name: name.to_owned(), run: f }
    }

    /// The display name.
    pub fn name(&self) -> (name: &str)
        ensures
            name@ == self.name_spec(),
    {
        self.name.as_str()
    }

    /// Runs the work once. Its result is shown to `black_box`, so that the
    /// work cannot be optimised away, and dropped.
    pub fn run(&self)
        requires
            call_requires(self.work(), ()),
        ensures
            exists|result: R| call_ensures(self.work(), (), result),
    {
        let result: R = (self.run)();
        let _ = core::hint::black_box(result);
    }
}

/// Every candidate may be called.
pub open spec fn all_callable<R, F: Fn() -> R>(benchmarks: Seq<Benchmark<F>>) -> bool {
    forall|i: int| 0 <= i < benchmarks.len() ==> call_requires(#[trigger] benchmarks[i].work(), ())
}

/// Runs `benchmark` `count` times in a row and returns the nanoseconds that
/// took, the low 64 bits of them.
pub fn time_batch<R, F: Fn() -> R>(benchmark: &Benchmark<F>, count: usize) -> (nanos: u64)
    requires
        call_requires(benchmark.work(), ()),
{
    let start: Instant = Instant::now();
    let mut i: usize = 0;
    while i < count
        invariant
            call_requires(benchmark.work(), ()),
        decreases count - i,
    {
        benchmark.run();
        i += 1;
    }
    let elapsed: Duration = start.elapsed();
    let nanos: u128 = elapsed.as_nanos();
    #[verifier::truncate]
    (nanos as u64)
}

/// Runs one calibration trial: every candidate `count` times, in order, and
/// returns the nanoseconds that the whole trial took.
pub fn run_trial<R, F: Fn() -> R>(benchmarks: &[Benchmark<F>], count: usize) -> (nanos: u128)
    requires
        all_callable(benchmarks@),
{
    let start: Instant = Instant::now();
    let mut b: usize = 0;
    while b < benchmarks.len()
        invariant
            all_callable(benchmarks@),
        decreases benchmarks.len() - b,
    {
        let mut i: usize = 0;
        while i < count
            invariant
                all_callable(benchmarks@),
                b < benchmarks.len(),
            decreases count - i,
        {
            benchmarks[b].run();
            i += 1;
        }
        b += 1;
    }
    let elapsed: Duration = start.elapsed();
    elapsed.as_nanos()
}

/// Calibrates the batch size of a run on the clock: the count is doubled
/// until a trial takes longer than the threshold.
pub fn batch_size<R, F: Fn() -> R>(benchmarks: &[Benchmark<F>]) -> (batch_size: usize)
    requires
        benchmarks@.len() >= 1,
        all_callable(benchmarks@),
    ensures
        batch_size >= 1,
        is_power_of_two(batch_size as int),
{
    let trial = |count: usize| -> (nanos: u128) { run_trial(benchmarks, count) };
    calibrate(trial)
}

/// Measures one round: one batch of `batch_size` invocations of every
/// candidate, in order. The result holds one duration per candidate, by
/// candidate position.
pub fn measure_round<R, F: Fn() -> R>(benchmarks: &[Benchmark<F>], batch_size: usize) -> (durations:
    Vec<u64>)
    requires
        all_callable(benchmarks@),
    ensures
        durations@.len() == benchmarks@.len(),
{
    let mut durations: Vec<u64> = Vec::new();
    let mut b: usize = 0;
    while b < benchmarks.len()
        invariant
            all_callable(benchmarks@),
            b <= benchmarks@.len(),
            durations@.len() == b,
        decreases benchmarks.len() - b,
    {
        durations.push(time_batch(&benchmarks[b], batch_size));
        b += 1;
    }
    durations
}

} // verus!
