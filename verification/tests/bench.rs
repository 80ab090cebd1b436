use rust_str_bench::bench::{batch_size, measure_round, run_trial, time_batch, Benchmark};
use std::cell::Cell;

#[test]
fn benchmark_keeps_its_name_and_runs_its_work() {
    let calls = Cell::new(0u32);
    let b = Benchmark::new("count", || calls.set(calls.get() + 1));
    assert_eq!(b.name(), "count");
    b.run();
    b.run();
    assert_eq!(calls.get(), 2);
}

#[test]
fn time_batch_runs_the_work_count_times() {
    let calls = Cell::new(0u32);
    let b = Benchmark::new("count", || {
        calls.set(calls.get() + 1);
        calls.get()
    });
    let _nanos: u64 = time_batch(&b, 17);
    assert_eq!(calls.get(), 17);
}

#[test]
fn trial_runs_every_candidate_count_times_in_order() {
    let log: Cell<Vec<u8>> = Cell::new(Vec::new());
    let note = |tag: u8| {
        let mut v = log.take();
        v.push(tag);
        log.set(v);
    };
    let benchmarks: Vec<Benchmark<Box<dyn Fn() + '_>>> = vec![
        Benchmark::new("a", Box::new(|| note(b'a'))),
        Benchmark::new("b", Box::new(|| note(b'b'))),
    ];
    let _nanos: u128 = run_trial(&benchmarks, 2);
    assert_eq!(log.take(), b"aabb".to_vec());
}

#[test]
fn measure_round_times_one_batch_per_candidate() {
    let calls = Cell::new(0u32);
    let bump = || calls.set(calls.get() + 1);
    let benchmarks =
        [Benchmark::new("a", &bump), Benchmark::new("b", &bump), Benchmark::new("c", &bump)];
    let durations = measure_round(&benchmarks, 5);
    assert_eq!(durations.len(), 3);
    assert_eq!(calls.get(), 15);
}

#[test]
fn batch_size_of_a_slow_candidate_is_one() {
    let benchmarks = [Benchmark::new("wait", || {
        let start = std::time::Instant::now();
        while start.elapsed().as_millis() < 520 {}
    })];
    assert_eq!(batch_size(&benchmarks), 1);
}
