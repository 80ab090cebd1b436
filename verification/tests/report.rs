use rust_str_bench::fixed::{push_decimal, push_thousandths};
use rust_str_bench::isqrt::isqrt;
use rust_str_bench::report::{display_values, render_report, render_table, DisplayValues};
use rust_str_bench::session::Session;
use rust_str_bench::stats::{Stats, StatsError};

fn decimal(n: u128) -> String {
    let mut s = String::from("x");
    push_decimal(&mut s, n);
    s
}

fn thousandths(n: u128) -> String {
    let mut s = String::new();
    push_thousandths(&mut s, n);
    s
}

fn words(v: &[&str]) -> Vec<String> {
    v.iter().map(|s| s.to_string()).collect()
}

fn stats_of(samples: &[u64]) -> Stats {
    let mut stats = Stats::new();
    for &s in samples {
        stats.record(s);
    }
    stats
}

#[test]
fn isqrt_rounds_down() {
    assert_eq!(isqrt(0), 0);
    assert_eq!(isqrt(1), 1);
    assert_eq!(isqrt(3), 1);
    assert_eq!(isqrt(4), 2);
    assert_eq!(isqrt(99), 9);
    assert_eq!(isqrt(100), 10);
    assert_eq!(isqrt(1_000_000_007 * 1_000_000_007 - 1), 1_000_000_006);
    assert_eq!(isqrt(u128::MAX), u64::MAX as u128);
    for v in 0u128..2_000 {
        let r = isqrt(v);
        assert!(r * r <= v && v < (r + 1) * (r + 1));
    }
}

#[test]
fn decimal_digits() {
    assert_eq!(decimal(0), "x0");
    assert_eq!(decimal(7), "x7");
    assert_eq!(decimal(10), "x10");
    assert_eq!(decimal(1_234_567_890), "x1234567890");
    assert_eq!(decimal(u128::MAX), format!("x{}", u128::MAX));
}

#[test]
fn thousandths_have_three_decimals() {
    assert_eq!(thousandths(0), "0.000");
    assert_eq!(thousandths(5), "0.005");
    assert_eq!(thousandths(50), "0.050");
    assert_eq!(thousandths(999), "0.999");
    assert_eq!(thousandths(1_000), "1.000");
    assert_eq!(thousandths(12_345), "12.345");
    assert_eq!(thousandths(100_000), "100.000");
}

#[test]
fn std_in_picoseconds_matches_textbook() {
    let samples = [1200u64, 1350, 1275, 1410, 1190];
    let mean = samples.iter().sum::<u64>() as f64 / 5.0;
    let var = samples.iter().map(|&x| (x as f64 - mean) * (x as f64 - mean)).sum::<f64>() / 4.0;
    let expected = var.sqrt();
    let picos = stats_of(&samples).std_picos().unwrap();
    assert!((picos as f64 / 1000.0 - expected).abs() < 0.001);
    assert_eq!(picos, (expected * 1000.0).floor() as u128);
    assert_eq!(stats_of(&[7, 7, 7]).std_picos(), Some(0));
    // variance 18, standard deviation 4.2426...
    assert_eq!(stats_of(&[10, 16]).std_picos(), Some(4_242));
    assert_eq!(stats_of(&[u64::MAX, u64::MAX]).std_picos(), Some(0));
    assert_eq!(stats_of(&[0, u64::MAX]).std_picos(), None);
}

#[test]
fn shown_mean_is_rounded_to_the_nearest_thousandth() {
    // 10 / (4 * 1) = 2.5
    assert_eq!(stats_of(&[1, 2, 3, 4]).mean_thousandths_per_unit(1), Some(2_500));
    // 10 / (4 * 3) = 0.8333..
    assert_eq!(stats_of(&[1, 2, 3, 4]).mean_thousandths_per_unit(3), Some(833));
    // 2 / 3 = 0.6666..
    assert_eq!(stats_of(&[2]).mean_thousandths_per_unit(3), Some(667));
    // 1 / 2000 = 0.0005, a half counts upwards
    assert_eq!(stats_of(&[1]).mean_thousandths_per_unit(2_000), Some(1));
    assert_eq!(stats_of(&[1]).mean_thousandths_per_unit(2_001), Some(0));
    assert_eq!(stats_of(&[1]).mean_thousandths_per_unit(u128::MAX), None);
}

#[test]
fn shown_deviation_is_rounded_to_the_nearest_thousandth() {
    // standard deviation sqrt(18) = 4.24264..
    assert_eq!(stats_of(&[10, 16]).std_thousandths_per_unit(1), Some(4_243));
    assert_eq!(stats_of(&[10, 16]).std_thousandths_per_unit(2), Some(2_121));
    assert_eq!(stats_of(&[5, 5, 5]).std_thousandths_per_unit(1), Some(0));
    assert_eq!(stats_of(&[10, 16]).std_thousandths_per_unit(u128::MAX), Some(0));
    assert_eq!(stats_of(&[u64::MAX, 1]).std_thousandths_per_unit(1), None);
}

#[test]
fn shown_relative_error() {
    // standard error 100, mean 10000
    assert_eq!(stats_of(&[9_900, 10_100]).relative_error_thousandths(), Ok(10));
    assert_eq!(stats_of(&[100, 100, 100]).relative_error_thousandths(), Ok(0));
    // standard error 1, mean 2
    assert_eq!(stats_of(&[1, 3]).relative_error_thousandths(), Ok(500));
    assert_eq!(stats_of(&[0, 0]).relative_error_thousandths(), Err(StatsError::ZeroMean));
    assert_eq!(stats_of(&[u64::MAX, 1]).relative_error_thousandths(), Err(StatsError::Overflow));
}

#[test]
fn table_aligns_names_and_values() {
    let rows = render_table(&words(&["A", "longer"]), &vec![100_000, 7_250], &vec![0, 12_000]);
    assert_eq!(
        rows,
        words(&["A:      avg=100.000ns std= 0.000ns", "longer: avg=  7.250ns std=12.000ns"])
    );
    assert_eq!(render_table(&Vec::new(), &Vec::new(), &Vec::new()), Vec::<String>::new());
}

#[test]
fn report_has_round_table_and_error_lines() {
    let values = DisplayValues {
        means: vec![100_000, 200_000],
        deviations: vec![0, 0],
        errors: vec![0, 0],
        max_error: 0,
    };
    let lines = render_report(10, &words(&["A", "B"]), &values);
    assert_eq!(
        lines,
        words(&[
            "N=10",
            "A: avg=100.000ns std=0.000ns",
            "B: avg=200.000ns std=0.000ns",
            "se/mean=0.000, stop at 0.01 or after 10 iterations, whichever is later",
        ])
    );
}

#[test]
fn display_values_of_two_constant_candidates() {
    let batch: usize = 1 << 10;
    let mut session = Session::new(2, batch);
    for _ in 0..10 {
        session.record_round(&vec![100 * batch as u64, 200 * batch as u64]).unwrap();
    }
    let values = display_values(&session, 1).unwrap();
    assert_eq!(values.means, vec![100_000, 200_000]);
    assert_eq!(values.deviations, vec![0, 0]);
    assert_eq!(values.errors, vec![0, 0]);
    assert_eq!(values.max_error, 0);
    let per_item = display_values(&session, 8).unwrap();
    assert_eq!(per_item.means, vec![12_500, 25_000]);
}

#[test]
fn display_values_take_the_largest_error() {
    let mut session = Session::new(3, 1);
    session.record_round(&vec![9_900, 1, 100]).unwrap();
    session.record_round(&vec![10_100, 3, 100]).unwrap();
    let values = display_values(&session, 1).unwrap();
    assert_eq!(values.errors, vec![10, 500, 0]);
    assert_eq!(values.max_error, 500);
    assert_eq!(values.means, vec![10_000_000, 2_000, 100_000]);
    assert_eq!(values.deviations, vec![141_421, 1_414, 0]);
}

#[test]
fn display_values_need_items_and_means() {
    let mut session = Session::new(1, 1);
    session.record_round(&vec![5]).unwrap();
    session.record_round(&vec![5]).unwrap();
    assert!(display_values(&session, 0).is_none());
    assert!(display_values(&session, 1).is_some());
    let mut zero = Session::new(2, 1);
    zero.record_round(&vec![5, 0]).unwrap();
    let _ = zero.record_round(&vec![5, 0]);
    assert!(display_values(&zero, 1).is_none());
}
