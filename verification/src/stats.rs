//! Sample statistics of one candidate: the recorded batch durations and the
//! mean, variance and relative standard error derived from them.
//!
//! Every derived value is recomputed from the full history on each call and
//! is exact: means and variances are returned as fractions of integers, and
//! the convergence test is decided without any division or square root.
//!
//! The variance is computed from the distances of the samples from the
//! smallest of them, so that 128 bits are enough unless the samples lie very
//! far apart, however large they are. Where 128 bits are not enough, the
//! functions say so instead of answering.

use vstd::prelude::*;
use vstd::arithmetic::overflow::CheckedU128;
use crate::isqrt::{is_nearest_sqrt, isqrt, nearest_sqrt_of_ratio};
use crate::ratio::Ratio;

verus! {

/// The sum of all samples.
pub open spec fn sum(s: Seq<u64>) -> nat
    decreases s.len(),
{
    if s.len() == 0 {
        0
    } else {
        sum(s.drop_last()) + s.last() as nat
    }
}

/// The sum of the squares of all samples.
pub open spec fn sum_of_squares(s: Seq<u64>) -> nat
    decreases s.len(),
{
    if s.len() == 0 {
        0
    } else {
        sum_of_squares(s.drop_last()) + (s.last() as nat) * (s.last() as nat)
    }
}

/// The sum over all samples `x` of `(scale * x - offset)^2`.
pub open spec fn sum_of_squared_offsets(s: Seq<u64>, scale: int, offset: int) -> int
    decreases s.len(),
{
    if s.len() == 0 {
        0
    } else {
        sum_of_squared_offsets(s.drop_last(), scale, offset) + (scale * s.last() - offset) * (scale
            * s.last() - offset)
    }
}

/// The squared deviations of the samples from their mean, summed, and
/// multiplied by `n^2` to stay in the integers: with `n` samples of sum `S`
/// and mean `m = S / n`, this is the sum of `(n * x - S)^2 = n^2 * (x - m)^2`.
///
/// The sample variance is this value divided by `n^2 * (n - 1)`.
pub open spec fn squared_deviations(s: Seq<u64>) -> int {
    sum_of_squared_offsets(s, s.len() as int, sum(s) as int)
}

/// `n * sum_of_squares - sum^2`, which is `n * (n - 1)` times the sample
/// variance (see [`lemma_spread_is_squared_deviations`]).
pub open spec fn spread(s: Seq<u64>) -> int {
    s.len() * sum_of_squares(s) - sum(s) * sum(s)
}

/// The relative standard error of the mean is strictly below one percent.
///
/// With variance `v = squared_deviations / (n^2 * (n - 1))`, standard error
/// `e = sqrt(v / n)` and mean `m = S / n`, the test `e / m < 1 / 100` is
/// `e^2 * 100^2 < m^2`, and without denominators
/// `10000 * squared_deviations < n * (n - 1) * S^2`.
pub open spec fn relative_error_below_threshold(s: Seq<u64>) -> bool {
    10_000 * squared_deviations(s) < s.len() * (s.len() - 1) * (sum(s) * sum(s))
}

/// `quotient` is the whole number nearest to `num / den`, a half counting
/// upwards: `quotient - 1/2 <= num / den < quotient + 1/2`, without
/// fractions.
pub open spec fn is_nearest_quotient(num: nat, den: nat, quotient: nat) -> bool {
    (2 * quotient - 1) * den <= 2 * num < (2 * quotient + 1) * den
}

/// A fraction has one nearest whole number only.
pub proof fn lemma_nearest_quotient_unique(num: nat, den: nat, a: nat, b: nat)
    requires
        den > 0,
        is_nearest_quotient(num, den, a),
        is_nearest_quotient(num, den, b),
    ensures
        a == b,
{
    if a < b {
        assert((2 * a + 1) * den <= (2 * b - 1) * den) by (nonlinear_arith)
            requires
                a + 1 <= b,
                den > 0,
        ;
    }
    if b < a {
        assert((2 * b + 1) * den <= (2 * a - 1) * den) by (nonlinear_arith)
            requires
                b + 1 <= a,
                den > 0,
        ;
    }
}

/// Each sample is below `2^64`, so the sum is at most `n * (2^64 - 1)`.
pub proof fn lemma_sum_bound(s: Seq<u64>)
    ensures
        sum(s) <= s.len() * 0xffff_ffff_ffff_ffff,
    decreases s.len(),
{
    if s.len() > 0 {
        lemma_sum_bound(s.drop_last());
    }
}

/// Expanding the square under the sum:
/// `sum (a x - b)^2 = a^2 * sum x^2 - 2 a b * sum x + n * b^2`.
pub proof fn lemma_sum_of_squared_offsets(s: Seq<u64>, scale: int, offset: int)
    ensures
        sum_of_squared_offsets(s, scale, offset) == scale * scale * sum_of_squares(s) - 2 * scale
            * offset * sum(s) + s.len() * offset * offset,
    decreases s.len(),
{
    let q1 = sum_of_squares(s) as int;
    let u1 = sum(s) as int;
    let k1 = s.len() as int;
    if s.len() > 0 {
        let t = s.drop_last();
        let x = s.last() as int;
        lemma_sum_of_squared_offsets(t, scale, offset);
        let q = sum_of_squares(t) as int;
        let u = sum(t) as int;
        let k = t.len() as int;
        let a = scale * scale;
        let b = scale * offset;
        let c = offset * offset;
        let xx = x * x;
        assert((scale * x - offset) * (scale * x - offset) == a * xx - 2 * b * x + c)
            by (nonlinear_arith)
            requires
                a == scale * scale,
                b == scale * offset,
                c == offset * offset,
                xx == x * x,
        ;
        assert(a * (q + xx) == a * q + a * xx) by (nonlinear_arith);
        assert(2 * b * (u + x) == 2 * b * u + 2 * b * x) by (nonlinear_arith);
        assert((k + 1) * c == k * c + c) by (nonlinear_arith);
        assert(2 * scale * offset * u == 2 * b * u) by (nonlinear_arith)
            requires
                b == scale * offset,
        ;
        assert(2 * scale * offset * u1 == 2 * b * u1) by (nonlinear_arith)
            requires
                b == scale * offset,
        ;
        assert(k * offset * offset == k * c) by (nonlinear_arith)
            requires
                c == offset * offset,
        ;
        assert(k1 * offset * offset == k1 * c) by (nonlinear_arith)
            requires
                c == offset * offset,
        ;
    } else {
        assert(scale * scale * q1 - 2 * scale * offset * u1 + k1 * offset * offset == 0)
            by (nonlinear_arith)
            requires
                q1 == 0,
                u1 == 0,
                k1 == 0,
        ;
    }
}

/// A sum of squares is never negative.
pub proof fn lemma_sum_of_squared_offsets_nonnegative(s: Seq<u64>, scale: int, offset: int)
    ensures
        sum_of_squared_offsets(s, scale, offset) >= 0,
    decreases s.len(),
{
    if s.len() > 0 {
        lemma_sum_of_squared_offsets_nonnegative(s.drop_last(), scale, offset);
        let d = scale * s.last() - offset;
        assert(d * d >= 0) by (nonlinear_arith);
    }
}

/// The textbook sum of squared deviations and the one-pass form agree:
/// `squared_deviations == n * spread`, and neither is negative.
pub proof fn lemma_spread_is_squared_deviations(s: Seq<u64>)
    ensures
        squared_deviations(s) == s.len() * spread(s),
        spread(s) >= 0,
        squared_deviations(s) >= 0,
{
    let n = s.len() as int;
    let t = sum(s) as int;
    let q = sum_of_squares(s) as int;
    lemma_sum_of_squared_offsets(s, n, t);
    lemma_sum_of_squared_offsets_nonnegative(s, n, t);
    assert(n * n * q - 2 * n * t * t + n * t * t == n * (n * q - t * t)) by (nonlinear_arith);
    if n > 0 {
        assert(n * q - t * t >= 0) by (nonlinear_arith)
            requires
                n > 0,
                n * (n * q - t * t) >= 0,
        ;
    }
}

/// The smallest sample; zero for no samples.
pub open spec fn min_of(s: Seq<u64>) -> u64
    decreases s.len(),
{
    if s.len() == 0 {
        0
    } else if s.len() == 1 {
        s[0]
    } else if s.last() < min_of(s.drop_last()) {
        s.last()
    } else {
        min_of(s.drop_last())
    }
}

/// The samples, each less `base`.
pub open spec fn offset_from(s: Seq<u64>, base: u64) -> Seq<u64> {
    Seq::new(s.len(), |i: int| (s[i] - base) as u64)
}

/// The distances of the samples from the smallest of them.
pub open spec fn centered(s: Seq<u64>) -> Seq<u64> {
    offset_from(s, min_of(s))
}

/// `n` times the sum of the squared distances from the smallest sample.
/// This is the largest number that the exact variance is computed from; it
/// grows with how far the samples lie apart, not with how large they are.
pub open spec fn weight(s: Seq<u64>) -> nat {
    s.len() * sum_of_squares(centered(s))
}

/// No sample is below the smallest.
pub proof fn lemma_min_of(s: Seq<u64>)
    ensures
        forall|i: int| 0 <= i < s.len() ==> min_of(s) <= #[trigger] s[i],
    decreases s.len(),
{
    if s.len() > 1 {
        lemma_min_of(s.drop_last());
        assert forall|i: int| 0 <= i < s.len() implies min_of(s) <= #[trigger] s[i] by {
            if i < s.len() - 1 {
                assert(s.drop_last()[i] == s[i]);
            }
        }
    }
}

/// Taking `base` off every sample takes `n * base` off the sum, and makes
/// the sum of squares the sum of the squared offsets from `base`.
pub proof fn lemma_offset_sums(s: Seq<u64>, base: u64)
    requires
        forall|i: int| 0 <= i < s.len() ==> base <= #[trigger] s[i],
    ensures
        sum(offset_from(s, base)) == sum(s) - s.len() * base,
        sum_of_squares(offset_from(s, base)) == sum_of_squared_offsets(s, 1, base as int),
    decreases s.len(),
{
    let t = offset_from(s, base);
    if s.len() > 0 {
        let rest = s.drop_last();
        assert forall|i: int| 0 <= i < rest.len() implies base <= #[trigger] rest[i] by {
            assert(rest[i] == s[i]);
        }
        lemma_offset_sums(rest, base);
        assert(t.drop_last() =~= offset_from(rest, base));
        assert(t.last() == s.last() - base);
        assert((s.len() - 1) * base + base == s.len() * base) by (nonlinear_arith);
        let x = s.last() as int;
        assert((1 * x - base) * (1 * x - base) == (x - base) * (x - base)) by (nonlinear_arith);
        assert(((x - base) as nat) * ((x - base) as nat) == (x - base) * (x - base))
            by (nonlinear_arith)
            requires
                x - base >= 0,
        ;
    } else {
        assert(s.len() * base == 0) by (nonlinear_arith)
            requires
                s.len() == 0,
        ;
    }
}

/// The spread does not change when the same amount is taken off every
/// sample: it speaks of how far the samples lie apart only.
pub proof fn lemma_spread_of_offset(s: Seq<u64>, base: u64)
    requires
        forall|i: int| 0 <= i < s.len() ==> base <= #[trigger] s[i],
    ensures
        spread(offset_from(s, base)) == spread(s),
{
    let t = offset_from(s, base);
    let n = s.len() as int;
    let b = base as int;
    let total = sum(s) as int;
    let q = sum_of_squares(s) as int;
    lemma_offset_sums(s, base);
    lemma_sum_of_squared_offsets(s, 1, b);
    let tq = sum_of_squares(t) as int;
    let tt = sum(t) as int;
    assert(tq == q - 2 * b * total + n * b * b) by (nonlinear_arith)
        requires
            tq == 1 * 1 * q - 2 * 1 * b * total + n * b * b,
    ;
    assert(n * tq - tt * tt == n * q - total * total) by (nonlinear_arith)
        requires
            tq == q - 2 * b * total + n * b * b,
            tt == total - n * b,
    ;
}

/// The distances from the smallest sample have the spread of the samples,
/// and the square of their sum is at most their weight.
pub proof fn lemma_centered(s: Seq<u64>)
    ensures
        centered(s).len() == s.len(),
        spread(centered(s)) == spread(s),
        sum(centered(s)) * sum(centered(s)) <= weight(s),
        weight(s) - sum(centered(s)) * sum(centered(s)) == spread(s),
{
    lemma_min_of(s);
    lemma_spread_of_offset(s, min_of(s));
    lemma_spread_is_squared_deviations(centered(s));
}

/// The history of `n` samples that are all `d`.
pub open spec fn constant_history(d: u64, n: nat) -> Seq<u64> {
    Seq::new(n, |i: int| d)
}

/// Samples that are all the same lie no distance apart: their smallest is
/// that value, and their weight is zero.
pub proof fn lemma_constant_weight(d: u64, n: nat)
    ensures
        n > 0 ==> min_of(constant_history(d, n)) == d,
        sum_of_squares(centered(constant_history(d, n))) == 0,
        weight(constant_history(d, n)) == 0,
    decreases n,
{
    let s = constant_history(d, n);
    if n > 0 {
        lemma_constant_weight(d, (n - 1) as nat);
        assert(s.drop_last() =~= constant_history(d, (n - 1) as nat));
        assert(min_of(s) == d);
        assert(centered(s) =~= constant_history(0, n));
        assert(centered(s).drop_last() =~= constant_history(0, (n - 1) as nat));
        lemma_zero_history(n);
    } else {
        assert(centered(s) =~= Seq::<u64>::empty());
    }
    assert(s.len() * sum_of_squares(centered(s)) == 0) by (nonlinear_arith)
        requires
            sum_of_squares(centered(s)) == 0,
    ;
}

/// Samples that are all zero have squares that sum to zero.
pub proof fn lemma_zero_history(n: nat)
    ensures
        sum_of_squares(constant_history(0, n)) == 0,
    decreases n,
{
    if n > 0 {
        lemma_zero_history((n - 1) as nat);
        assert(constant_history(0, n).drop_last() =~= constant_history(0, (n - 1) as nat));
        assert(constant_history(0, n).last() == 0);
    }
}

/// Samples that are all the same have that value as their mean and no
/// deviation from it: the sum is `n * d`, the spread, the squared
/// deviations and the weight are zero, and from two samples on the relative
/// standard error is below the threshold unless the samples are zero.
pub proof fn lemma_constant_history(d: u64, n: nat)
    ensures
        sum(constant_history(d, n)) == n * d,
        sum_of_squares(constant_history(d, n)) == n * (d * d),
        spread(constant_history(d, n)) == 0,
        squared_deviations(constant_history(d, n)) == 0,
        weight(constant_history(d, n)) == 0,
        n >= 2 && d > 0 ==> relative_error_below_threshold(constant_history(d, n)),
    decreases n,
{
    let s = constant_history(d, n);
    lemma_constant_weight(d, n);
    if n > 0 {
        lemma_constant_history(d, (n - 1) as nat);
        assert(s.drop_last() =~= constant_history(d, (n - 1) as nat));
        assert((n - 1) * d + d == n * d) by (nonlinear_arith);
        assert((n - 1) * (d * d) + d * d == n * (d * d)) by (nonlinear_arith);
    } else {
        assert(n * d == 0) by (nonlinear_arith)
            requires
                n == 0,
        ;
        assert(n * (d * d) == 0) by (nonlinear_arith)
            requires
                n == 0,
        ;
    }
    let t = sum(s) as int;
    let q = sum_of_squares(s) as int;
    assert(n * q - t * t == 0) by (nonlinear_arith)
        requires
            t == n * d,
            q == n * (d * d),
    ;
    lemma_spread_is_squared_deviations(s);
    assert(squared_deviations(s) == 0) by (nonlinear_arith)
        requires
            squared_deviations(s) == s.len() * spread(s),
            spread(s) == 0,
    ;
    if n >= 2 && d > 0 {
        assert(s.len() * (s.len() - 1) * (t * t) > 0) by (nonlinear_arith)
            requires
                s.len() >= 2,
                t == n * d,
                n >= 2,
                d > 0,
        ;
    }
}

/// Why a derived statistic could not be computed.
#[derive(Clone, Copy, Debug, PartialEq, Eq, Structural)]
pub enum StatsError {
    /// Every sample is zero, so the mean is zero and an error relative to it
    /// is undefined.
    ZeroMean,
    /// An exact intermediate value does not fit in 128 bits.
    Overflow,
}

/// The observed batch durations of one candidate, in nanoseconds, in the
/// order in which they were recorded.
pub struct Stats {
    value_nanos: Vec<u64>,
}

impl View for Stats {
    type V = Seq<u64>;

    closed spec fn view(&self) -> Seq<u64> {
        self.value_nanos@
    }
}

impl Default for Stats {
    fn default() -> (stats: Stats)
        ensures
            stats@ == Seq::<u64>::empty(),
    {
        Stats::new()
    }
}

impl Clone for Stats {
    fn clone(&self) -> (copy: Stats)
        ensures
            copy@ == self@,
    {
        Stats { value_nanos: self.value_nanos.clone() }
    }
}

impl Stats {
    /// An empty history.
    pub fn new() -> (stats: Stats)
        ensures
            stats@ == Seq::<u64>::empty(),
    {
        Stats { value_nanos: Vec::new() }
    }

    /// Appends one batch duration to the history.
    pub fn record(&mut self, duration_ns: u64)
        ensures
            final(self)@ == old(self)@.push(duration_ns),
    {
        self.value_nanos.push(duration_ns);
    }

    /// The number of recorded samples.
    pub fn len(&self) -> (n: usize)
        ensures
            n == self@.len(),
    {
        self.value_nanos.len()
    }

    /// The recorded samples, oldest first.
    pub fn samples(&self) -> (v: &Vec<u64>)
        ensures
            v@ == self@,
    {
        &self.value_nanos
    }

    /// The sum of all samples. It always fits: fewer than `2^64` samples,
    /// each below `2^64`.
    pub fn sum_nanos(&self) -> (total: u128)
        ensures
            total == sum(self@),
    {
        let n: usize = self.value_nanos.len();
        let mut total: u128 = 0;
        let mut i: usize = 0;
        while i < n
            invariant
                n == self@.len(),
                i <= n,
                total == sum(self@.take(i as int)),
            decreases n - i,
        {
            proof {
                lemma_sum_bound(self@.take(i as int));
                assert(self@.take(i + 1).drop_last() =~= self@.take(i as int));
            }
            total = total + self.value_nanos[i] as u128;
            i += 1;
        }
        proof {
            assert(self@.take(n as int) =~= self@);
        }
        total
    }

    /// The smallest sample; zero for no samples.
    pub fn min_nanos(&self) -> (least: u64)
        ensures
            least == min_of(self@),
    {
        let n: usize = self.value_nanos.len();
        if n == 0 {
            return 0;
        }
        let mut least: u64 = self.value_nanos[0];
        let mut i: usize = 1;
        assert(self@.take(1) =~= seq![self@[0]]);
        while i < n
            invariant
                n == self@.len(),
                1 <= i <= n,
                least == min_of(self@.take(i as int)),
            decreases n - i,
        {
            proof {
                assert(self@.take(i + 1).drop_last() =~= self@.take(i as int));
            }
            if self.value_nanos[i] < least {
                least = self.value_nanos[i];
            }
            i += 1;
        }
        proof {
            assert(self@.take(n as int) =~= self@);
        }
        least
    }

    /// The sum of the distances from the smallest sample, and the sum of
    /// their squares, which may exceed 128 bits.
    fn centered_sums(&self) -> (sums: (u128, CheckedU128))
        ensures
            sums.0 == sum(centered(self@)),
            sums.1@ == sum_of_squares(centered(self@)),
    {
        let n: usize = self.value_nanos.len();
        let base: u64 = self.min_nanos();
        proof {
            lemma_min_of(self@);
        }
        let mut total: u128 = 0;
        let mut squares: CheckedU128 = CheckedU128::new(0);
        let mut i: usize = 0;
        while i < n
            invariant
                n == self@.len(),
                i <= n,
                forall|k: int| 0 <= k < self@.len() ==> base <= #[trigger] self@[k],
                total == sum(offset_from(self@.take(i as int), base)),
                squares@ == sum_of_squares(offset_from(self@.take(i as int), base)),
            decreases n - i,
        {
            let y: u128 = (self.value_nanos[i] - base) as u128;
            proof {
                lemma_sum_bound(offset_from(self@.take(i as int), base));
                assert(offset_from(self@.take(i + 1), base).drop_last() =~= offset_from(
                    self@.take(i as int),
                    base,
                ));
                assert(offset_from(self@.take(i + 1), base).last() == y);
                assert(y * y <= 0xffff_ffff_ffff_ffff * 0xffff_ffff_ffff_ffff) by (nonlinear_arith)
                    requires
                        y <= 0xffff_ffff_ffff_ffff,
                ;
            }
            total = total + y;
            squares = squares.add_value(y * y);
            i += 1;
        }
        proof {
            assert(self@.take(n as int) =~= self@);
        }
        (total, squares)
    }

    /// `factor` times the spread of the samples; `None` exactly when
    /// `factor` times their weight does not fit in 128 bits.
    fn scaled_spread(&self, factor: u128) -> (scaled: Option<u128>)
        requires
            factor >= 1,
        ensures
            scaled is None <==> factor * weight(self@) > u128::MAX,
            scaled matches Some(v) ==> v == factor * spread(self@),
    {
        let n: u128 = self.value_nanos.len() as u128;
        let (total, squares) = self.centered_sums();
        let heavy: CheckedU128 = squares.mul_value(n);
        let bound: CheckedU128 = heavy.mul_value(factor);
        proof {
            lemma_centered(self@);
            let q = sum_of_squares(centered(self@)) as int;
            assert(heavy@ == weight(self@)) by (nonlinear_arith)
                requires
                    heavy@ == q * (n as int),
                    weight(self@) == self@.len() * q,
                    n == self@.len(),
            ;
            assert(bound@ == factor * weight(self@)) by (nonlinear_arith)
                requires
                    bound@ == (heavy@ as int) * (factor as int),
                    heavy@ == weight(self@),
            ;
            assert(heavy@ <= bound@) by (nonlinear_arith)
                requires
                    bound@ == (heavy@ as int) * (factor as int),
                    factor >= 1,
            ;
            assert(total * total == sum(centered(self@)) * sum(centered(self@)))
                by (nonlinear_arith)
                requires
                    total == sum(centered(self@)),
            ;
        }
        if bound.is_overflowed() {
            None
        } else {
            let apart: u128 = heavy.unwrap() - total * total;
            proof {
                assert(apart * factor <= heavy@ * factor) by (nonlinear_arith)
                    requires
                        apart <= heavy@,
                        factor >= 0,
                ;
                assert(apart * factor == factor * spread(self@)) by (nonlinear_arith)
                    requires
                        apart == spread(self@),
                ;
            }
            Some(apart * factor)
        }
    }

    /// The arithmetic mean in nanoseconds, `sum / n`, or `None` for an
    /// empty history.
    pub fn mean_nanos(&self) -> (mean: Option<Ratio>)
        ensures
            self@.len() == 0 ==> mean is None,
            self@.len() > 0 ==> mean is Some,
            mean matches Some(m) ==> m.num == sum(self@) && m.den == self@.len(),
    {
        let n: usize = self.value_nanos.len();
        if n == 0 {
            None
        } else {
            Some(Ratio { num: self.sum_nanos(), den: n as u128 })
        }
    }

    /// The arithmetic mean in seconds, `sum / (n * 10^9)`, or `None` for an
    /// empty history.
    pub fn mean_seconds(&self) -> (mean: Option<Ratio>)
        ensures
            self@.len() == 0 ==> mean is None,
            self@.len() > 0 ==> mean is Some,
            mean matches Some(m) ==> m.num == sum(self@) && m.den == self@.len() * 1_000_000_000,
    {
        let n: usize = self.value_nanos.len();
        if n == 0 {
            None
        } else {
            Some(Ratio { num: self.sum_nanos(), den: n as u128 * 1_000_000_000 })
        }
    }

    /// The sample variance in square nanoseconds, with the `n - 1`
    /// denominator: `spread / (n * (n - 1))`, which is the sum of the squared
    /// deviations from the mean divided by `n - 1`.
    ///
    /// `None` exactly when the weight of the samples does not fit in 128
    /// bits.
    pub fn variance_nanos(&self) -> (variance: Option<Ratio>)
        requires
            self@.len() >= 2,
        ensures
            variance is None <==> weight(self@) > u128::MAX,
            variance matches Some(v) ==> {
                &&& v.num == spread(self@)
                &&& v.den == self@.len() * (self@.len() - 1)
                &&& v.num * self@.len() == squared_deviations(self@)
            },
    {
        let n: u128 = self.value_nanos.len() as u128;
        proof {
            lemma_spread_is_squared_deviations(self@);
        }
        match self.scaled_spread(1) {
            None => None,
            Some(num) => {
                assert(n * (n - 1) <= 0xffff_ffff_ffff_ffff * 0xffff_ffff_ffff_ffff)
                    by (nonlinear_arith)
                    requires
                        1 <= n <= 0xffff_ffff_ffff_ffff,
                ;
                proof {
                    assert(num * n == n * spread(self@)) by (nonlinear_arith)
                        requires
                            num == spread(self@),
                    ;
                }
                Some(Ratio { num, den: n * (n - 1) })
            },
        }
    }

    /// The square of the standard error of the mean in square nanoseconds:
    /// the sample variance divided by `n`, which is
    /// `spread / (n * n * (n - 1))`.
    ///
    /// `None` exactly when the weight of the samples or `n * n * (n - 1)`
    /// does not fit in 128 bits.
    pub fn squared_standard_error_nanos(&self) -> (error: Option<Ratio>)
        requires
            self@.len() >= 2,
        ensures
            error is None <==> weight(self@) > u128::MAX || self@.len() * (self@.len() * (
            self@.len() - 1)) > u128::MAX,
            error matches Some(e) ==> {
                &&& e.num == spread(self@)
                &&& e.den == self@.len() * (self@.len() * (self@.len() - 1))
            },
    {
        let n: u128 = self.value_nanos.len() as u128;
        match self.variance_nanos() {
            None => None,
            Some(variance) => {
                let den: CheckedU128 = CheckedU128::new(variance.den).mul_value(n);
                proof {
                    assert(den@ == self@.len() * (self@.len() * (self@.len() - 1)))
                        by (nonlinear_arith)
                        requires
                            den@ == (variance.den as int) * (n as int),
                            variance.den == self@.len() * (self@.len() - 1),
                            n == self@.len(),
                    ;
                }
                match den.to_option() {
                    None => None,
                    Some(d) => Some(Ratio { num: variance.num, den: d }),
                }
            },
        }
    }

    /// The sample standard deviation in picoseconds, rounded down: the
    /// largest `p` with `(p / 1000)^2 <= variance`, the variance taken in
    /// square nanoseconds.
    ///
    /// `None` exactly when a million times the weight of the samples does
    /// not fit in 128 bits.
    pub fn std_picos(&self) -> (std: Option<u128>)
        requires
            self@.len() >= 2,
        ensures
            std is None <==> 1_000_000 * weight(self@) > u128::MAX,
            std matches Some(p) ==> {
                &&& p * p * (self@.len() * (self@.len() - 1)) <= 1_000_000 * spread(self@)
                &&& 1_000_000 * spread(self@) < (p + 1) * (p + 1) * (self@.len() * (self@.len()
                    - 1))
            },
    {
        let n: u128 = self.value_nanos.len() as u128;
        let num: u128 = match self.scaled_spread(1_000_000) {
            None => {
                return None;
            },
            Some(num) => num,
        };
        assert(n * (n - 1) <= 0xffff_ffff_ffff_ffff * 0xffff_ffff_ffff_ffff) by (nonlinear_arith)
            requires
                1 <= n <= 0xffff_ffff_ffff_ffff,
        ;
        let den: u128 = n * (n - 1);
        assert(den >= 2) by (nonlinear_arith)
            requires
                den == n * (n - 1),
                n >= 2,
        ;
        let whole: u128 = num / den;
        let p: u128 = isqrt(whole);
        proof {
            let rest = num % den;
            assert(num == den * whole + rest && 0 <= rest < den) by {
                vstd::arithmetic::div_mod::lemma_fundamental_div_mod(num as int, den as int);
            }
            assert(p * p * den <= whole * den) by (nonlinear_arith)
                requires
                    p * p <= whole,
                    den >= 0,
            ;
            assert((whole + 1) * den <= (p + 1) * (p + 1) * den) by (nonlinear_arith)
                requires
                    whole + 1 <= (p + 1) * (p + 1),
                    den >= 0,
            ;
            assert((whole + 1) * den == whole * den + den) by (nonlinear_arith);
            assert(den * whole == whole * den) by (nonlinear_arith);
        }
        Some(p)
    }

    /// The mean per unit in thousandths of a nanosecond, to the nearest
    /// thousandth, where one sample covers `units` units: the nearest whole
    /// number to `1000 * sum / (n * units)`.
    ///
    /// `None` exactly when `2000 * sum + n * units` or `2 * n * units` does
    /// not fit in 128 bits.
    pub fn mean_thousandths_per_unit(&self, units: u128) -> (mean: Option<u128>)
        requires
            self@.len() >= 1,
            units >= 1,
        ensures
            mean is None <==> 2_000 * sum(self@) + self@.len() * units > u128::MAX || 2 * (
            self@.len() * units) > u128::MAX,
            mean matches Some(m) ==> is_nearest_quotient(
                1_000 * sum(self@),
                self@.len() * units as nat,
                m as nat,
            ),
    {
        let n: u128 = self.value_nanos.len() as u128;
        let total: u128 = self.sum_nanos();
        let den: CheckedU128 = CheckedU128::new(n).mul_value(units);
        let top: CheckedU128 = CheckedU128::new(total).mul_value(2_000).add_checked(&den);
        let bottom: CheckedU128 = den.mul_value(2);
        proof {
            assert(den@ == self@.len() * units) by (nonlinear_arith)
                requires
                    den@ == (n as int) * (units as int),
                    n == self@.len(),
            ;
            assert(den@ >= 1) by (nonlinear_arith)
                requires
                    den@ == (n as int) * (units as int),
                    n >= 1,
                    units >= 1,
            ;
        }
        if top.is_overflowed() || bottom.is_overflowed() {
            return None;
        }
        let a: u128 = top.unwrap();
        let b: u128 = bottom.unwrap();
        let m: u128 = a / b;
        proof {
            let rest = a % b;
            let d = den@ as int;
            assert(a == b * m + rest && 0 <= rest < b) by {
                vstd::arithmetic::div_mod::lemma_fundamental_div_mod(a as int, b as int);
            }
            assert(b * m == 2 * m * d) by (nonlinear_arith)
                requires
                    b == d * 2,
            ;
            assert((2 * m - 1) * d == 2 * m * d - d) by (nonlinear_arith);
            assert((2 * m + 1) * d == 2 * m * d + d) by (nonlinear_arith);
        }
        Some(m)
    }

    /// The sample standard deviation per unit in thousandths of a
    /// nanosecond, to the nearest thousandth, where one sample covers
    /// `units` units: the nearest whole number to
    /// `1000 * sqrt(variance) / units`.
    ///
    /// `None` exactly when four million times the weight of the samples does
    /// not fit in 128 bits.
    pub fn std_thousandths_per_unit(&self, units: u128) -> (std: Option<u128>)
        requires
            self@.len() >= 2,
            units >= 1,
        ensures
            std is None <==> 4_000_000 * weight(self@) > u128::MAX,
            std matches Some(d) ==> is_nearest_sqrt(
                (1_000_000 * spread(self@)) as nat,
                (self@.len() * (self@.len() - 1) * (units * units)) as nat,
                d as nat,
            ),
    {
        let n: u128 = self.value_nanos.len() as u128;
        proof {
            lemma_spread_is_squared_deviations(self@);
        }
        match self.scaled_spread(4_000_000) {
            None => None,
            Some(num) => {
                assert(n * (n - 1) <= 0xffff_ffff_ffff_ffff * 0xffff_ffff_ffff_ffff)
                    by (nonlinear_arith)
                    requires
                        1 <= n <= 0xffff_ffff_ffff_ffff,
                ;
                let pairs: u128 = n * (n - 1);
                let den: CheckedU128 = CheckedU128::new(pairs).mul_value(units).mul_value(units);
                proof {
                    assert(den@ == self@.len() * (self@.len() - 1) * (units * units))
                        by (nonlinear_arith)
                        requires
                            den@ == (pairs as int) * (units as int) * (units as int),
                            pairs == n * (n - 1),
                            n == self@.len(),
                    ;
                    assert(den@ > 0) by (nonlinear_arith)
                        requires
                            den@ == (pairs as int) * (units as int) * (units as int),
                            pairs == n * (n - 1),
                            n >= 2,
                            units >= 1,
                    ;
                }
                Some(nearest_sqrt_of_ratio(num, &den))
            },
        }
    }

    /// `(n - 1)` times the square of the sum, which may exceed 128 bits.
    fn pairs_times_squared_sum(&self) -> (product: CheckedU128)
        requires
            self@.len() >= 1,
        ensures
            product@ == (self@.len() - 1) * (sum(self@) * sum(self@)),
    {
        let n: u128 = self.value_nanos.len() as u128;
        let total: u128 = self.sum_nanos();
        let product: CheckedU128 = CheckedU128::new(total).mul_value(total).mul_value(n - 1);
        proof {
            assert(product@ == (self@.len() - 1) * (sum(self@) * sum(self@))) by (nonlinear_arith)
                requires
                    product@ == (total as int) * (total as int) * ((n - 1) as int),
                    total == sum(self@),
                    n == self@.len(),
            ;
        }
        product
    }

    /// The relative standard error of the mean in thousandths, to the
    /// nearest thousandth: the nearest whole number to
    /// `1000 * sqrt(variance / n) / mean`.
    ///
    /// Fails with `ZeroMean` exactly when all samples are zero, and with
    /// `Overflow` exactly when four million times the weight of the samples
    /// does not fit in 128 bits.
    pub fn relative_error_thousandths(&self) -> (error: Result<u128, StatsError>)
        requires
            self@.len() >= 2,
        ensures
            error == Err::<u128, StatsError>(StatsError::ZeroMean) <==> sum(self@) == 0,
            error == Err::<u128, StatsError>(StatsError::Overflow) <==> sum(self@) != 0
                && 4_000_000 * weight(self@) > u128::MAX,
            error matches Ok(e) ==> is_nearest_sqrt(
                (1_000_000 * spread(self@)) as nat,
                ((self@.len() - 1) * (sum(self@) * sum(self@))) as nat,
                e as nat,
            ),
    {
        let total: u128 = self.sum_nanos();
        if total == 0 {
            return Err(StatsError::ZeroMean);
        }
        proof {
            lemma_spread_is_squared_deviations(self@);
        }
        match self.scaled_spread(4_000_000) {
            None => Err(StatsError::Overflow),
            Some(num) => {
                let den: CheckedU128 = self.pairs_times_squared_sum();
                proof {
                    let t = sum(self@) as int;
                    assert((self@.len() - 1) * (t * t) > 0) by (nonlinear_arith)
                        requires
                            self@.len() >= 2,
                            t >= 1,
                    ;
                }
                Ok(nearest_sqrt_of_ratio(num, &den))
            },
        }
    }

    /// Decides whether the relative standard error of the mean is strictly
    /// below one percent.
    ///
    /// Fails with `ZeroMean` exactly when all samples are zero, and with
    /// `Overflow` exactly when ten thousand times the weight of the samples
    /// does not fit in 128 bits.
    pub fn relative_error_is_below_threshold(&self) -> (verdict: Result<bool, StatsError>)
        requires
            self@.len() >= 2,
        ensures
            verdict == Err::<bool, StatsError>(StatsError::ZeroMean) <==> sum(self@) == 0,
            verdict == Err::<bool, StatsError>(StatsError::Overflow) <==> sum(self@) != 0
                && 10_000 * weight(self@) > u128::MAX,
            verdict matches Ok(below) ==> below == relative_error_below_threshold(self@),
    {
        let total: u128 = self.sum_nanos();
        if total == 0 {
            return Err(StatsError::ZeroMean);
        }
        let lhs: u128 = match self.scaled_spread(10_000) {
            None => {
                return Err(StatsError::Overflow);
            },
            Some(lhs) => lhs,
        };
        let rhs: CheckedU128 = self.pairs_times_squared_sum();
        let below: bool = rhs.is_overflowed() || lhs < rhs.unwrap();
        proof {
            let len = self@.len() as int;
            let t = sum(self@) as int;
            let sp = spread(self@);
            lemma_spread_is_squared_deviations(self@);
            assert(below <==> 10_000 * sp < (len - 1) * (t * t));
            assert(10_000 * squared_deviations(self@) == len * (10_000 * sp)) by (nonlinear_arith)
                requires
                    squared_deviations(self@) == len * sp,
            ;
            assert(len * (len - 1) * (t * t) == len * ((len - 1) * (t * t))) by (nonlinear_arith);
            assert(len * (10_000 * sp) < len * ((len - 1) * (t * t)) <==> 10_000 * sp < (len - 1)
                * (t * t)) by (nonlinear_arith)
                requires
                    len > 0,
            ;
        }
        Ok(below)
    }
}

} // verus!
