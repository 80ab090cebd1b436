use rust_str_bench::ratio::Ratio;
use rust_str_bench::stats::{Stats, StatsError};

fn stats_of(samples: &[u64]) -> Stats {
    let mut stats = Stats::new();
    for &s in samples {
        stats.record(s);
    }
    stats
}

fn as_f64(r: Ratio) -> f64 {
    r.num as f64 / r.den as f64
}

fn textbook_mean(samples: &[u64]) -> f64 {
    samples.iter().map(|&x| x as f64).sum::<f64>() / samples.len() as f64
}

fn textbook_std(samples: &[u64]) -> f64 {
    let mean = textbook_mean(samples);
    let sum: f64 = samples.iter().map(|&x| (x as f64 - mean) * (x as f64 - mean)).sum();
    (sum / (samples.len() - 1) as f64).sqrt()
}

#[test]
fn new_stats_are_empty() {
    let stats = Stats::new();
    assert_eq!(stats.len(), 0);
    assert_eq!(stats.sum_nanos(), 0);
    assert_eq!(stats.mean_nanos(), None);
    assert_eq!(stats.mean_seconds(), None);
    assert_eq!(Stats::default().len(), 0);
}

#[test]
fn record_keeps_insertion_order() {
    let stats = stats_of(&[5, 3, 9]);
    assert_eq!(stats.len(), 3);
    assert_eq!(stats.samples(), &vec![5u64, 3, 9]);
    let copy = stats.clone();
    assert_eq!(copy.samples(), stats.samples());
}

#[test]
fn sum_of_samples_is_exact() {
    assert_eq!(stats_of(&[1, 2, 3, 4]).sum_nanos(), 10);
    assert_eq!(stats_of(&[u64::MAX, u64::MAX]).sum_nanos(), 2 * (u64::MAX as u128));
}

#[test]
fn mean_is_sum_over_count() {
    let stats = stats_of(&[1, 2, 3, 4]);
    assert_eq!(stats.mean_nanos(), Some(Ratio { num: 10, den: 4 }));
    assert_eq!(stats.mean_seconds(), Some(Ratio { num: 10, den: 4_000_000_000 }));
}

#[test]
fn variance_uses_the_sample_formula() {
    // mean 2.5, squared deviations 2.25 + 0.25 + 0.25 + 2.25 = 5, variance 5 / 3
    let v = stats_of(&[1, 2, 3, 4]).variance_nanos().unwrap();
    assert_eq!(v, Ratio { num: 20, den: 12 });
    // two samples: (a - b)^2 / 2 = 18
    let v = stats_of(&[10, 16]).variance_nanos().unwrap();
    assert_eq!(v, Ratio { num: 36, den: 2 });
}

#[test]
fn variance_of_constant_samples_is_zero() {
    let v = stats_of(&[7, 7, 7, 7, 7]).variance_nanos().unwrap();
    assert_eq!(v.num, 0);
    assert_eq!(v.den, 20);
}

#[test]
fn variance_reports_overflow() {
    assert_eq!(stats_of(&[0, u64::MAX]).variance_nanos(), None);
    assert!(stats_of(&[1 << 63, 1 << 62]).variance_nanos().is_some());
}

#[test]
fn mean_and_std_match_textbook_formulas() {
    let cases: [&[u64]; 4] = [
        &[1200, 1350, 1275, 1410, 1190],
        &[1, 2, 3, 4],
        &[500_000_123, 499_999_877, 500_000_500, 500_001_000, 499_998_000, 500_000_001],
        &[42, 42],
    ];
    for samples in cases {
        let stats = stats_of(samples);
        let mean = as_f64(stats.mean_nanos().unwrap());
        let expected_mean = textbook_mean(samples);
        assert!((mean - expected_mean).abs() <= 1e-12 * expected_mean);
        let std = as_f64(stats.variance_nanos().unwrap()).sqrt();
        let expected_std = textbook_std(samples);
        assert!((std - expected_std).abs() <= 1e-6 * expected_std.max(1e-9));
    }
}

#[test]
fn derived_values_are_recomputed_alike() {
    let stats = stats_of(&[3, 8, 5, 13]);
    assert_eq!(stats.mean_nanos(), stats.mean_nanos());
    assert_eq!(stats.variance_nanos(), stats.variance_nanos());
    assert_eq!(
        stats.relative_error_is_below_threshold(),
        stats.relative_error_is_below_threshold()
    );
}

#[test]
fn constant_samples_have_no_relative_error() {
    assert_eq!(stats_of(&[100, 100]).relative_error_is_below_threshold(), Ok(true));
}

#[test]
fn relative_error_threshold_is_one_percent() {
    // Two samples m - d and m + d: variance 2 d^2, standard error d, mean m.
    // d / m < 1 / 100 is strict.
    assert_eq!(stats_of(&[9_901, 10_099]).relative_error_is_below_threshold(), Ok(true));
    assert_eq!(stats_of(&[9_900, 10_100]).relative_error_is_below_threshold(), Ok(false));
    assert_eq!(stats_of(&[9_000, 11_000]).relative_error_is_below_threshold(), Ok(false));
}

#[test]
fn relative_error_of_zero_mean_is_an_error() {
    assert_eq!(
        stats_of(&[0, 0, 0]).relative_error_is_below_threshold(),
        Err(StatsError::ZeroMean)
    );
}

#[test]
fn relative_error_reports_overflow() {
    assert_eq!(
        stats_of(&[u64::MAX, 1]).relative_error_is_below_threshold(),
        Err(StatsError::Overflow)
    );
}

#[test]
fn squared_standard_error_is_variance_over_count() {
    // variance 5 / 3, four samples
    let e = stats_of(&[1, 2, 3, 4]).squared_standard_error_nanos().unwrap();
    assert_eq!(e, Ratio { num: 20, den: 48 });
    let sem = (e.num as f64 / e.den as f64).sqrt();
    let expected = textbook_std(&[1, 2, 3, 4]) / 2.0;
    assert!((sem - expected).abs() < 1e-12);
    assert_eq!(stats_of(&[0, u64::MAX]).squared_standard_error_nanos(), None);
}

#[test]
fn smallest_sample() {
    assert_eq!(stats_of(&[]).min_nanos(), 0);
    assert_eq!(stats_of(&[7]).min_nanos(), 7);
    assert_eq!(stats_of(&[9, 4, 6, 4, 8]).min_nanos(), 4);
    assert_eq!(stats_of(&[1, 2, 3]).min_nanos(), 1);
    assert_eq!(stats_of(&[3, 2, 1]).min_nanos(), 1);
}

#[test]
fn large_samples_that_lie_close_are_no_overflow() {
    let big = stats_of(&[u64::MAX, u64::MAX]);
    assert_eq!(big.variance_nanos(), Some(Ratio { num: 0, den: 2 }));
    assert_eq!(big.std_picos(), Some(0));
    assert_eq!(big.relative_error_is_below_threshold(), Ok(true));
    assert_eq!(big.relative_error_thousandths(), Ok(0));
    // the same spread as 10 and 16
    let near = stats_of(&[u64::MAX - 6, u64::MAX]);
    assert_eq!(near.variance_nanos(), Some(Ratio { num: 36, den: 2 }));
    assert_eq!(near.std_picos(), Some(4_242));
    assert_eq!(near.relative_error_is_below_threshold(), Ok(true));
    let ten = stats_of(&[u64::MAX; 10]);
    assert_eq!(ten.variance_nanos().unwrap().num, 0);
    assert_eq!(ten.mean_nanos(), Some(Ratio { num: 10 * (u64::MAX as u128), den: 10 }));
    assert_eq!(ten.relative_error_is_below_threshold(), Ok(true));
}
