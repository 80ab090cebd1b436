//! The measuring phase of a benchmark run as a state machine.
//!
//! A session owns one sample history per candidate. A driver times one batch
//! of every candidate, hands the durations of that round to
//! [`Session::record_round`], and is told whether to go on. The session stops
//! at the first round, not earlier than the tenth, after which every
//! candidate's relative standard error is below one percent.

use vstd::prelude::*;
use crate::ratio::Ratio;
use crate::stats::{
    constant_history, lemma_constant_history, relative_error_below_threshold, sum, weight, Stats,
    StatsError,
};

verus! {

/// No session stops before this many rounds.
pub const MIN_ROUNDS: usize = 10;

/// Convergence is first looked at after this many rounds; the sample
/// variance needs two samples.
pub const FIRST_CHECKED_ROUND: usize = 2;

/// What the driver does after a round.
#[derive(Clone, Copy, Debug, PartialEq, Eq, Structural)]
pub enum RoundOutcome {
    /// Measure another round.
    InProgress,
    /// The measurements are stable: stop and read the means.
    Done,
}

/// Where a session stands.
#[derive(Clone, Copy, Debug, PartialEq, Eq, Structural)]
pub enum Phase {
    /// Rounds are being recorded.
    Measuring,
    /// The stopping rule was met; no further round is accepted.
    Done,
    /// A round ended in an error; no further round is accepted.
    Aborted,
}

/// The exact test of one history overflows 128 bits: ten thousand times
/// the weight of its samples does not fit.
pub open spec fn test_overflows(s: Seq<u64>) -> bool {
    10_000 * weight(s) > u128::MAX
}

/// What a round ends in, given every candidate's history after it.
///
/// Nothing is judged before the second round. From then on a candidate
/// whose samples are all zero ends the session with `ZeroMean`, and
/// otherwise one whose test overflows ends it with `Overflow`. Else the
/// session is done when at least [`MIN_ROUNDS`] rounds are recorded and every
/// candidate's relative standard error is below the threshold, which is to
/// say the largest of them is.
pub open spec fn outcome_of(histories: Seq<Seq<u64>>, rounds: nat) -> Result<
    RoundOutcome,
    StatsError,
> {
    if rounds < FIRST_CHECKED_ROUND {
        Ok(RoundOutcome::InProgress)
    } else if exists|i: int| 0 <= i < histories.len() && sum(#[trigger] histories[i]) == 0 {
        Err(StatsError::ZeroMean)
    } else if exists|i: int| 0 <= i < histories.len() && test_overflows(#[trigger] histories[i]) {
        Err(StatsError::Overflow)
    } else if rounds >= MIN_ROUNDS && forall|i: int|
        0 <= i < histories.len() ==> relative_error_below_threshold(#[trigger] histories[i]) {
        Ok(RoundOutcome::Done)
    } else {
        Ok(RoundOutcome::InProgress)
    }
}

/// The phase a session is in after a round that ended in `outcome`.
pub open spec fn phase_after(outcome: Result<RoundOutcome, StatsError>) -> Phase {
    match outcome {
        Ok(RoundOutcome::InProgress) => Phase::Measuring,
        Ok(RoundOutcome::Done) => Phase::Done,
        Err(_) => Phase::Aborted,
    }
}

/// No session is done before round [`MIN_ROUNDS`], however small the
/// relative errors are.
pub proof fn lemma_never_done_early(histories: Seq<Seq<u64>>, rounds: nat)
    requires
        rounds < MIN_ROUNDS,
    ensures
        outcome_of(histories, rounds) != Ok::<RoundOutcome, StatsError>(RoundOutcome::Done),
{
}

/// From round [`MIN_ROUNDS`] on, and as long as every candidate's test can be
/// computed, a session is done exactly when every candidate's relative
/// standard error is below the threshold.
pub proof fn lemma_done_when_stable(histories: Seq<Seq<u64>>, rounds: nat)
    requires
        rounds >= MIN_ROUNDS,
        forall|i: int|
            0 <= i < histories.len() ==> sum(#[trigger] histories[i]) != 0 && !test_overflows(
                histories[i],
            ),
    ensures
        outcome_of(histories, rounds) == Ok::<RoundOutcome, StatsError>(RoundOutcome::Done)
            <==> forall|i: int|
            0 <= i < histories.len() ==> relative_error_below_threshold(#[trigger] histories[i]),
        outcome_of(histories, rounds) is Ok,
{
}

/// The histories of candidates whose batches always take the same time:
/// candidate `i` has taken `durations[i]` in each of `rounds` rounds.
pub open spec fn constant_histories(durations: Seq<u64>, rounds: nat) -> Seq<Seq<u64>> {
    Seq::new(durations.len(), |i: int| constant_history(durations[i], rounds))
}

/// Candidates whose batches always take the same time keep the session going
/// for nine rounds and end it with the tenth. This holds for all durations
/// but zero, which has no relative error.
pub proof fn lemma_constant_candidates_stop_at_min_rounds(durations: Seq<u64>, rounds: nat)
    requires
        forall|i: int| 0 <= i < durations.len() ==> #[trigger] durations[i] > 0,
        rounds <= MIN_ROUNDS,
    ensures
        rounds < MIN_ROUNDS ==> outcome_of(constant_histories(durations, rounds), rounds) == Ok::<
            RoundOutcome,
            StatsError,
        >(RoundOutcome::InProgress),
        rounds == MIN_ROUNDS ==> outcome_of(constant_histories(durations, rounds), rounds) == Ok::<
            RoundOutcome,
            StatsError,
        >(RoundOutcome::Done),
{
    let histories = constant_histories(durations, rounds);
    if rounds >= FIRST_CHECKED_ROUND {
        assert forall|i: int| 0 <= i < histories.len() implies sum(#[trigger] histories[i]) != 0
            && !test_overflows(histories[i]) && relative_error_below_threshold(histories[i]) by {
            let d = durations[i];
            lemma_constant_history(d, rounds);
            assert(histories[i] == constant_history(d, rounds));
            assert(rounds * d > 0) by (nonlinear_arith)
                requires
                    rounds >= 2,
                    d > 0,
            ;
        }
    }
}

/// With a batch of `batch_size` invocations that take `per_call` each, the
/// mean per invocation that a session hands out after any number of rounds
/// is `per_call`: the sum of the history is `per_call` times the number of
/// rounds times the batch size.
pub proof fn lemma_constant_mean_per_call(per_call: u64, batch_size: usize, rounds: nat)
    requires
        per_call * batch_size <= u64::MAX,
    ensures
        sum(constant_history((per_call * batch_size) as u64, rounds)) == per_call * (rounds
            * batch_size),
{
    let d = (per_call * batch_size) as u64;
    lemma_constant_history(d, rounds);
    assert(rounds * d == per_call * (rounds * batch_size)) by (nonlinear_arith)
        requires
            d == per_call * batch_size,
    ;
}

/// The durations of recorded rounds, round by round: `rounds[r][i]` is what
/// candidate `i` took in round `r`.
pub open spec fn round_values(rounds: Seq<Vec<u64>>) -> Seq<Seq<u64>> {
    Seq::new(rounds.len(), |r: int| rounds[r]@)
}

/// The histories of `candidates` candidates after the first `k` of the given
/// rounds.
pub open spec fn histories_after(rounds: Seq<Seq<u64>>, candidates: nat, k: nat) -> Seq<Seq<u64>> {
    Seq::new(candidates, |i: int| Seq::new(k, |r: int| rounds[r][i]))
}

/// What the `k`-th of the given rounds ends in.
pub open spec fn outcome_after(rounds: Seq<Seq<u64>>, candidates: nat, k: nat) -> Result<
    RoundOutcome,
    StatsError,
> {
    outcome_of(histories_after(rounds, candidates, k), k)
}

/// Rounds in which every candidate takes what it always takes:
/// `durations[i]` for candidate `i`.
pub open spec fn constant_rounds(durations: Seq<u64>, rounds: nat) -> Seq<Seq<u64>> {
    Seq::new(rounds, |r: int| durations)
}

/// A run on constant durations, none of them zero, goes on through nine
/// rounds and ends with the tenth.
pub proof fn lemma_constant_rounds_stop_at_min_rounds(durations: Seq<u64>, given: nat, k: nat)
    requires
        forall|i: int| 0 <= i < durations.len() ==> #[trigger] durations[i] > 0,
        k <= given,
        k <= MIN_ROUNDS,
    ensures
        histories_after(constant_rounds(durations, given), durations.len(), k)
            == constant_histories(durations, k),
        k < MIN_ROUNDS ==> outcome_after(constant_rounds(durations, given), durations.len(), k)
            == Ok::<RoundOutcome, StatsError>(RoundOutcome::InProgress),
        k == MIN_ROUNDS ==> outcome_after(constant_rounds(durations, given), durations.len(), k)
            == Ok::<RoundOutcome, StatsError>(RoundOutcome::Done),
{
    let rounds = constant_rounds(durations, given);
    let after = histories_after(rounds, durations.len(), k);
    let constant = constant_histories(durations, k);
    assert forall|i: int| 0 <= i < durations.len() implies #[trigger] after[i] =~= constant[i] by {
        assert forall|r: int| 0 <= r < k implies after[i][r] == constant[i][r] by {
            assert(rounds[r] == durations);
        }
    }
    assert(after =~= constant);
    lemma_constant_candidates_stop_at_min_rounds(durations, k);
}

/// One benchmark run: the batch size found by calibration and the sample
/// history of every candidate, by candidate position.
pub struct Session {
    batch_size: usize,
    stats: Vec<Stats>,
    phase: Phase,
}

impl Session {
    /// The number of invocations that one sample covers.
    pub closed spec fn batch_size_spec(&self) -> nat {
        self.batch_size as nat
    }

    /// The histories of all candidates, by candidate position.
    pub closed spec fn histories(&self) -> Seq<Seq<u64>> {
        Seq::new(self.stats@.len(), |i: int| self.stats@[i]@)
    }

    /// The phase of the session.
    pub closed spec fn phase_spec(&self) -> Phase {
        self.phase
    }

    /// The number of completed rounds.
    pub open spec fn rounds_spec(&self) -> nat {
        self.histories()[0].len()
    }

    /// The number of candidates.
    pub open spec fn candidates_spec(&self) -> nat {
        self.histories().len()
    }

    /// There is at least one candidate, a batch is at least one invocation,
    /// and all histories have the same length: a round is recorded for all
    /// candidates or for none.
    pub open spec fn wf(&self) -> bool {
        &&& self.candidates_spec() >= 1
        &&& self.batch_size_spec() >= 1
        &&& forall|i: int|
            0 <= i < self.candidates_spec() ==> (#[trigger] self.histories()[i]).len()
                == self.rounds_spec()
    }

    /// Starts the measuring phase for `candidates` candidates with the
    /// calibrated `batch_size`, at round zero.
    pub fn new(candidates: usize, batch_size: usize) -> (session: Session)
        requires
            candidates >= 1,
            batch_size >= 1,
        ensures
            session.wf(),
            session.candidates_spec() == candidates,
            session.batch_size_spec() == batch_size,
            session.rounds_spec() == 0,
            session.phase_spec() == Phase::Measuring,
    {
        let mut stats: Vec<Stats> = Vec::new();
        let mut i: usize = 0;
        while i < candidates
            invariant
                i <= candidates,
                stats@.len() == i,
                forall|j: int| 0 <= j < i ==> (#[trigger] stats@[j])@.len() == 0,
            decreases candidates - i,
        {
            stats.push(Stats::new());
            i += 1;
        }
        Session { batch_size, stats, phase: Phase::Measuring }
    }

    /// The number of invocations that one sample covers.
    pub fn batch_size(&self) -> (n: usize)
        ensures
            n == self.batch_size_spec(),
    {
        self.batch_size
    }

    /// The number of candidates.
    pub fn candidates(&self) -> (n: usize)
        ensures
            n == self.candidates_spec(),
    {
        self.stats.len()
    }

    /// The number of completed rounds.
    pub fn rounds(&self) -> (n: usize)
        requires
            self.wf(),
        ensures
            n == self.rounds_spec(),
    {
        self.stats[0].len()
    }

    /// The phase of the session.
    pub fn phase(&self) -> (phase: Phase)
        ensures
            phase == self.phase_spec(),
    {
        self.phase
    }

    /// The sample history of the candidate at `index`.
    pub fn stats(&self, index: usize) -> (stats: &Stats)
        requires
            index < self.candidates_spec(),
        ensures
            stats@ == self.histories()[index as int],
    {
        &self.stats[index]
    }

    /// Judges the rounds recorded so far by the stopping rule.
    pub fn judge(&self) -> (outcome: Result<RoundOutcome, StatsError>)
        requires
            self.wf(),
        ensures
            outcome == outcome_of(self.histories(), self.rounds_spec()),
    {
        let n: usize = self.stats.len();
        let rounds: usize = self.stats[0].len();
        if rounds < FIRST_CHECKED_ROUND {
            return Ok(RoundOutcome::InProgress);
        }
        let ghost h = self.histories();
        let mut zero: bool = false;
        let mut overflow: bool = false;
        let mut all_below: bool = true;
        let mut i: usize = 0;
        while i < n
            invariant
                self.wf(),
                h == self.histories(),
                n == h.len(),
                rounds == self.rounds_spec(),
                rounds >= FIRST_CHECKED_ROUND,
                i <= n,
                zero <==> exists|j: int| 0 <= j < i && sum(#[trigger] h[j]) == 0,
                overflow <==> exists|j: int|
                    0 <= j < i && sum(#[trigger] h[j]) != 0 && test_overflows(h[j]),
                all_below <==> forall|j: int|
                    0 <= j < i && sum(#[trigger] h[j]) != 0 && !test_overflows(h[j])
                        ==> relative_error_below_threshold(h[j]),
            decreases n - i,
        {
            assert(h[i as int] == self.stats@[i as int]@);
            assert(h[i as int].len() == rounds);
            match self.stats[i].relative_error_is_below_threshold() {
                Err(StatsError::ZeroMean) => {
                    zero = true;
                },
                Err(StatsError::Overflow) => {
                    overflow = true;
                },
                Ok(below) => {
                    all_below = all_below && below;
                },
            }
            i += 1;
        }
        if zero {
            Err(StatsError::ZeroMean)
        } else if overflow {
            Err(StatsError::Overflow)
        } else if rounds >= MIN_ROUNDS && all_below {
            Ok(RoundOutcome::Done)
        } else {
            Ok(RoundOutcome::InProgress)
        }
    }

    /// Records one completed round: `durations[i]` is the time in
    /// nanoseconds that one batch of candidate `i` took. Every history grows
    /// by its sample, and the round is judged.
    pub fn record_round(&mut self, durations: &Vec<u64>) -> (outcome: Result<
        RoundOutcome,
        StatsError,
    >)
        requires
            old(self).wf(),
            old(self).phase_spec() == Phase::Measuring,
            durations@.len() == old(self).candidates_spec(),
        ensures
            final(self).wf(),
            final(self).candidates_spec() == old(self).candidates_spec(),
            final(self).batch_size_spec() == old(self).batch_size_spec(),
            final(self).rounds_spec() == old(self).rounds_spec() + 1,
            forall|i: int|
                0 <= i < durations@.len() ==> #[trigger] final(self).histories()[i]
                    == old(self).histories()[i].push(durations@[i]),
            outcome == outcome_of(final(self).histories(), final(self).rounds_spec()),
            final(self).phase_spec() == phase_after(outcome),
            outcome == Ok::<RoundOutcome, StatsError>(RoundOutcome::Done)
                ==> final(self).rounds_spec() >= MIN_ROUNDS,
    {
        let n: usize = self.stats.len();
        let ghost before = self.histories();
        let mut i: usize = 0;
        while i < n
            invariant
                n == durations@.len(),
                n == before.len(),
                self.stats@.len() == n,
                self.batch_size == old(self).batch_size,
                self.phase == old(self).phase,
                i <= n,
                forall|j: int| 0 <= j < i ==> (#[trigger] self.stats@[j])@ == before[j].push(durations@[j]),
                forall|j: int| i <= j < n ==> (#[trigger] self.stats@[j])@ == before[j],
            decreases n - i,
        {
            self.stats[i].record(durations[i]);
            i += 1;
        }
        assert(self.wf());
        let outcome = self.judge();
        self.phase =
        match outcome {
            Ok(RoundOutcome::InProgress) => Phase::Measuring,
            Ok(RoundOutcome::Done) => Phase::Done,
            Err(_) => Phase::Aborted,
        };
        outcome
    }

    /// The mean time of a single invocation of every candidate, in
    /// nanoseconds: the candidate's mean batch time divided by the batch
    /// size, which is `sum / (rounds * batch_size)`.
    pub fn mean_nanos_per_call(&self) -> (means: Vec<Ratio>)
        requires
            self.wf(),
            self.rounds_spec() >= 1,
        ensures
            means@.len() == self.candidates_spec(),
            forall|i: int|
                0 <= i < means@.len() ==> (#[trigger] means@[i]).num == sum(self.histories()[i])
                    && means@[i].den == self.rounds_spec() * self.batch_size_spec(),
    {
        let n: usize = self.stats.len();
        let rounds: usize = self.stats[0].len();
        assert(rounds * self.batch_size <= 0xffff_ffff_ffff_ffff * 0xffff_ffff_ffff_ffff)
            by (nonlinear_arith)
            requires
                rounds <= 0xffff_ffff_ffff_ffff,
                self.batch_size <= 0xffff_ffff_ffff_ffff,
        ;
        let den: u128 = rounds as u128 * self.batch_size as u128;
        let mut means: Vec<Ratio> = Vec::new();
        let mut i: usize = 0;
        while i < n
            invariant
                self.wf(),
                n == self.candidates_spec(),
                n == self.stats@.len(),
                den == self.rounds_spec() * self.batch_size_spec(),
                i <= n,
                means@.len() == i,
                forall|j: int|
                    0 <= j < i ==> (#[trigger] means@[j]).num == sum(self.histories()[j])
                        && means@[j].den == den,
            decreases n - i,
        {
            let total: u128 = self.stats[i].sum_nanos();
            means.push(Ratio { num: total, den });
            i += 1;
        }
        means
    }

    /// Runs a session on durations that were measured or made up beforehand:
    /// the rounds are recorded in order until one of them ends the session
    /// or none is left.
    ///
    /// The session therefore ends with the first round that does not say
    /// "in progress": the first round, not before the tenth, after which
    /// every candidate is stable, or the first that fails.
    pub fn replay(candidates: usize, batch_size: usize, rounds: &Vec<Vec<u64>>) -> (session:
        Session)
        requires
            candidates >= 1,
            batch_size >= 1,
            forall|r: int| 0 <= r < rounds@.len() ==> (#[trigger] rounds@[r])@.len() == candidates,
        ensures
            session.wf(),
            session.candidates_spec() == candidates,
            session.batch_size_spec() == batch_size,
            session.rounds_spec() <= rounds@.len(),
            session.histories() == histories_after(
                round_values(rounds@),
                candidates as nat,
                session.rounds_spec(),
            ),
            forall|k: nat|
                1 <= k < session.rounds_spec() ==> #[trigger] outcome_after(
                    round_values(rounds@),
                    candidates as nat,
                    k,
                ) == Ok::<RoundOutcome, StatsError>(RoundOutcome::InProgress),
            session.rounds_spec() < rounds@.len() ==> session.rounds_spec() >= 1 && outcome_after(
                round_values(rounds@),
                candidates as nat,
                session.rounds_spec(),
            ) != Ok::<RoundOutcome, StatsError>(RoundOutcome::InProgress),
            session.rounds_spec() == 0 ==> session.phase_spec() == Phase::Measuring,
            session.rounds_spec() >= 1 ==> session.phase_spec() == phase_after(
                outcome_after(round_values(rounds@), candidates as nat, session.rounds_spec()),
            ),
    {
        let mut session: Session = Session::new(candidates, batch_size);
        let ghost values = round_values(rounds@);
        let mut r: usize = 0;
        assert(session.histories() =~= histories_after(values, candidates as nat, 0)) by {
            assert forall|i: int| 0 <= i < candidates implies #[trigger] session.histories()[i]
                =~= histories_after(values, candidates as nat, 0)[i] by {}
        }
        while r < rounds.len()
            invariant
                candidates >= 1,
                values == round_values(rounds@),
                forall|r: int|
                    0 <= r < rounds@.len() ==> (#[trigger] rounds@[r])@.len() == candidates,
                r <= rounds@.len(),
                session.wf(),
                session.candidates_spec() == candidates,
                session.batch_size_spec() == batch_size,
                session.rounds_spec() == r,
                session.histories() == histories_after(values, candidates as nat, r as nat),
                session.phase_spec() == Phase::Measuring,
                forall|k: nat|
                    1 <= k <= r ==> #[trigger] outcome_after(values, candidates as nat, k) == Ok::<
                        RoundOutcome,
                        StatsError,
                    >(RoundOutcome::InProgress),
            decreases rounds.len() - r,
        {
            let ghost before = session.histories();
            let outcome = session.record_round(&rounds[r]);
            proof {
                let after = histories_after(values, candidates as nat, (r + 1) as nat);
                assert forall|i: int| 0 <= i < candidates implies #[trigger] session.histories()[i]
                    =~= after[i] by {
                    assert(session.histories()[i] == before[i].push(rounds@[r as int]@[i]));
                    assert(values[r as int][i] == rounds@[r as int]@[i]);
                }
                assert(session.histories() =~= after);
            }
            r += 1;
            match outcome {
                Ok(RoundOutcome::InProgress) => {},
                _ => {
                    return session;
                },
            }
        }
        session
    }
}

} // verus!
