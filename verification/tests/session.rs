use rust_str_bench::ratio::Ratio;
use rust_str_bench::session::{Phase, RoundOutcome, Session, MIN_ROUNDS};
use rust_str_bench::stats::StatsError;

#[test]
fn new_session_starts_at_round_zero() {
    let session = Session::new(3, 16);
    assert_eq!(session.candidates(), 3);
    assert_eq!(session.batch_size(), 16);
    assert_eq!(session.rounds(), 0);
    assert_eq!(session.phase(), Phase::Measuring);
    assert_eq!(session.judge(), Ok(RoundOutcome::InProgress));
}

#[test]
fn record_round_appends_to_every_history() {
    let mut session = Session::new(2, 1);
    assert_eq!(session.record_round(&vec![10, 20]), Ok(RoundOutcome::InProgress));
    assert_eq!(session.record_round(&vec![11, 21]), Ok(RoundOutcome::InProgress));
    assert_eq!(session.rounds(), 2);
    assert_eq!(session.stats(0).samples(), &vec![10u64, 11]);
    assert_eq!(session.stats(1).samples(), &vec![20u64, 21]);
}

#[test]
fn never_stops_before_round_ten() {
    let mut session = Session::new(1, 1);
    for round in 1..MIN_ROUNDS {
        assert_eq!(session.record_round(&vec![1_000]), Ok(RoundOutcome::InProgress));
        assert_eq!(session.rounds(), round);
        assert_eq!(session.phase(), Phase::Measuring);
    }
    assert_eq!(session.record_round(&vec![1_000]), Ok(RoundOutcome::Done));
    assert_eq!(session.rounds(), 10);
    assert_eq!(session.phase(), Phase::Done);
}

#[test]
fn constant_duration_stops_at_round_ten() {
    let d: u64 = 123_456;
    let mut session = Session::new(1, 1);
    let mut last = Ok(RoundOutcome::InProgress);
    for _ in 0..10 {
        last = session.record_round(&vec![d]);
    }
    assert_eq!(last, Ok(RoundOutcome::Done));
    let stats = session.stats(0);
    let mean = stats.mean_nanos().unwrap();
    assert_eq!(mean.num, mean.den * d as u128);
    assert_eq!(stats.variance_nanos().unwrap().num, 0);
    assert_eq!(stats.relative_error_is_below_threshold(), Ok(true));
}

// The noisy candidate alternates around 1000 with a swing that shrinks after
// round 10; its relative error first drops below one percent at round 14.
fn noisy(round: usize) -> u64 {
    let swing: u64 = if round <= 10 { 100 } else { 0 };
    if round % 2 == 0 {
        1_000 + swing
    } else {
        1_000 - swing
    }
}

fn relative_error(samples: &[u64]) -> f64 {
    let n = samples.len() as f64;
    let mean = samples.iter().map(|&x| x as f64).sum::<f64>() / n;
    let var = samples.iter().map(|&x| (x as f64 - mean) * (x as f64 - mean)).sum::<f64>()
        / (n - 1.0);
    (var / n).sqrt() / mean
}

#[test]
fn stops_at_first_stable_round_after_ten() {
    let mut expected = 0;
    let mut history: Vec<u64> = Vec::new();
    for round in 1..=100 {
        history.push(noisy(round));
        if round >= 10 && relative_error(&history) < 0.01 {
            expected = round;
            break;
        }
    }
    assert!(expected > 10);

    let mut session = Session::new(2, 4);
    let mut stopped = 0;
    for round in 1..=100 {
        let outcome = session.record_round(&vec![noisy(round), 500]).unwrap();
        if outcome == RoundOutcome::Done {
            stopped = round;
            break;
        }
    }
    assert_eq!(stopped, expected);
    assert_eq!(session.rounds(), expected);
}

#[test]
fn two_constant_candidates_end_to_end() {
    let batch: usize = 1 << 12;
    let mut session = Session::new(2, batch);
    let mut last = Ok(RoundOutcome::InProgress);
    for _ in 0..10 {
        assert_eq!(last, Ok(RoundOutcome::InProgress));
        last = session.record_round(&vec![100 * batch as u64, 200 * batch as u64]);
    }
    assert_eq!(last, Ok(RoundOutcome::Done));
    let means = session.mean_nanos_per_call();
    assert_eq!(means.len(), 2);
    let seconds: Vec<f64> = means.iter().map(|m| m.num as f64 / m.den as f64 / 1e9).collect();
    assert!((seconds[0] - 100e-9).abs() < 1e-15);
    assert!((seconds[1] - 200e-9).abs() < 1e-15);
    assert_eq!(session.stats(0).variance_nanos().unwrap().num, 0);
    assert_eq!(session.stats(1).variance_nanos().unwrap().num, 0);
}

#[test]
fn mean_per_call_divides_by_rounds_and_batch() {
    let mut session = Session::new(2, 8);
    session.record_round(&vec![80, 160]).unwrap();
    session.record_round(&vec![96, 160]).unwrap();
    assert_eq!(
        session.mean_nanos_per_call(),
        vec![Ratio { num: 176, den: 16 }, Ratio { num: 320, den: 16 }]
    );
}

#[test]
fn zero_mean_aborts_from_round_two() {
    let mut session = Session::new(2, 1);
    assert_eq!(session.record_round(&vec![0, 5]), Ok(RoundOutcome::InProgress));
    assert_eq!(session.record_round(&vec![0, 5]), Err(StatsError::ZeroMean));
    assert_eq!(session.phase(), Phase::Aborted);
}

#[test]
fn overflow_aborts() {
    let mut session = Session::new(1, 1);
    session.record_round(&vec![u64::MAX]).unwrap();
    assert_eq!(session.record_round(&vec![1]), Err(StatsError::Overflow));
    assert_eq!(session.phase(), Phase::Aborted);
}

#[test]
fn zero_mean_comes_before_overflow() {
    let mut session = Session::new(2, 1);
    session.record_round(&vec![u64::MAX, 0]).unwrap();
    assert_eq!(session.record_round(&vec![1, 0]), Err(StatsError::ZeroMean));
}

#[test]
fn unstable_candidate_keeps_session_going() {
    let mut session = Session::new(2, 1);
    for round in 1..=12 {
        let outcome = session.record_round(&vec![1_000, if round % 2 == 0 { 10 } else { 1_000 }]);
        assert_eq!(outcome, Ok(RoundOutcome::InProgress));
    }
}

#[test]
fn replay_stops_at_the_first_round_that_ends_the_session() {
    let rounds: Vec<Vec<u64>> = (1..=40).map(|round| vec![noisy(round), 500]).collect();
    let mut live = Session::new(2, 4);
    let mut stopped = 0;
    for round in &rounds {
        if live.record_round(round) != Ok(RoundOutcome::InProgress) {
            stopped = live.rounds();
            break;
        }
    }
    assert!(stopped > 10);
    let session = Session::replay(2, 4, &rounds);
    assert_eq!(session.rounds(), stopped);
    assert_eq!(session.phase(), Phase::Done);
    assert_eq!(session.stats(0).samples(), live.stats(0).samples());
    assert_eq!(session.judge(), Ok(RoundOutcome::Done));
}

#[test]
fn replay_of_too_few_rounds_is_still_measuring() {
    let rounds: Vec<Vec<u64>> = (0..9).map(|_| vec![100]).collect();
    let session = Session::replay(1, 1, &rounds);
    assert_eq!(session.rounds(), 9);
    assert_eq!(session.phase(), Phase::Measuring);
    let none = Session::replay(1, 1, &Vec::new());
    assert_eq!(none.rounds(), 0);
    assert_eq!(none.phase(), Phase::Measuring);
}

#[test]
fn replay_stops_at_a_failing_round() {
    let rounds: Vec<Vec<u64>> = (0..5).map(|_| vec![0]).collect();
    let session = Session::replay(1, 1, &rounds);
    assert_eq!(session.rounds(), 2);
    assert_eq!(session.phase(), Phase::Aborted);
}

#[test]
fn any_constant_duration_stops_at_round_ten() {
    for d in [1u64, 999, 1 << 40, u64::MAX] {
        let rounds: Vec<Vec<u64>> = (0..12).map(|_| vec![d]).collect();
        let session = Session::replay(1, 1, &rounds);
        assert_eq!(session.rounds(), 10);
        assert_eq!(session.phase(), Phase::Done);
        let mean = session.stats(0).mean_nanos().unwrap();
        assert_eq!(mean.num, mean.den * d as u128);
        assert_eq!(session.stats(0).std_picos(), Some(0));
    }
}
