//! The report of a round: the numbers that are shown, and the lines that
//! show them.
//!
//! Times are shown per unit, in nanoseconds with three decimals. A unit is
//! one item of one invocation: a sample covers `batch_size` invocations, and
//! the caller says how many items an invocation works through.

use vstd::prelude::*;
use vstd::string::StringExecFns;
use crate::aligned_writer::{
    column_width, left_aligned, lemma_ascii_fills_own_column, right_aligned, texts, width_of,
    AlignedWriter,
};
use crate::fixed::{decimal, push_decimal, push_thousandths, thousandths};
use crate::isqrt::{is_nearest_sqrt, lemma_nearest_sqrt_unique};
use crate::session::Session;
use crate::stats::{
    constant_history, is_nearest_quotient, lemma_constant_history, lemma_nearest_quotient_unique,
    spread, sum, weight,
};

verus! {

/// The numbers of one report, all in thousandths: per candidate the mean
/// and the standard deviation per unit in nanoseconds and the relative
/// standard error, and the largest relative standard error.
pub struct DisplayValues {
    pub means: Vec<u128>,
    pub deviations: Vec<u128>,
    pub errors: Vec<u128>,
    pub max_error: u128,
}

/// The numbers of a history can be shown: its mean is not zero and the
/// exact values behind the three numbers fit in 128 bits.
pub open spec fn displayable(s: Seq<u64>, units: nat) -> bool {
    &&& sum(s) != 0
    &&& 4_000_000 * weight(s) <= u128::MAX
    &&& 2_000 * sum(s) + s.len() * units <= u128::MAX
    &&& 2 * (s.len() * units) <= u128::MAX
}

/// `mean` is the mean per unit of the history, in thousandths of a
/// nanosecond and to the nearest thousandth.
pub open spec fn is_shown_mean(s: Seq<u64>, units: nat, mean: nat) -> bool {
    is_nearest_quotient(1_000 * sum(s), s.len() * units, mean)
}

/// `deviation` is the sample standard deviation per unit of the history, in
/// thousandths of a nanosecond and to the nearest thousandth.
pub open spec fn is_shown_deviation(s: Seq<u64>, units: nat, deviation: nat) -> bool {
    is_nearest_sqrt(
        (1_000_000 * spread(s)) as nat,
        (s.len() * (s.len() - 1) * (units * units)) as nat,
        deviation,
    )
}

/// `error` is the relative standard error of the mean of the history, in
/// thousandths and to the nearest thousandth.
pub open spec fn is_shown_error(s: Seq<u64>, error: nat) -> bool {
    is_nearest_sqrt(
        (1_000_000 * spread(s)) as nat,
        ((s.len() - 1) * (sum(s) * sum(s))) as nat,
        error,
    )
}

/// A candidate that always takes `per_unit` nanoseconds for each of the
/// `units` units of a sample is shown with a mean of exactly `per_unit`, no
/// deviation and no relative error, after any number of rounds from the
/// second on; and these are the only numbers that show it.
pub proof fn lemma_constant_display(
    per_unit: u64,
    units: nat,
    rounds: nat,
    mean: nat,
    deviation: nat,
    error: nat,
)
    requires
        per_unit > 0,
        units >= 1,
        rounds >= 2,
        per_unit * units <= u64::MAX,
        is_shown_mean(constant_history((per_unit * units) as u64, rounds), units, mean),
        is_shown_deviation(
            constant_history((per_unit * units) as u64, rounds),
            units,
            deviation,
        ),
        is_shown_error(constant_history((per_unit * units) as u64, rounds), error),
    ensures
        mean == 1_000 * per_unit,
        deviation == 0,
        error == 0,
{
    let d = (per_unit * units) as u64;
    let s = constant_history(d, rounds);
    lemma_constant_history(d, rounds);
    let total = sum(s);
    let den = (rounds * units) as nat;
    assert(total == per_unit * (rounds * units)) by (nonlinear_arith)
        requires
            total == rounds * d,
            d == per_unit * units,
    ;
    assert(den > 0) by (nonlinear_arith)
        requires
            den == rounds * units,
            rounds >= 2,
            units >= 1,
    ;
    let m = (1_000 * per_unit) as nat;
    assert(is_nearest_quotient(1_000 * total, den, m)) by (nonlinear_arith)
        requires
            total == per_unit * (rounds * units),
            den == rounds * units,
            den > 0,
            m == 1_000 * per_unit,
    ;
    lemma_nearest_quotient_unique(1_000 * total, den, m, mean);
    let pairs = (rounds * (rounds - 1) * (units * units)) as nat;
    assert(pairs > 0) by (nonlinear_arith)
        requires
            pairs == rounds * (rounds - 1) * (units * units),
            rounds >= 2,
            units >= 1,
    ;
    assert(is_nearest_sqrt(0, pairs, 0)) by (nonlinear_arith)
        requires
            pairs > 0,
    ;
    lemma_nearest_sqrt_unique(0, pairs, 0, deviation);
    let weighed = ((rounds - 1) * (total * total)) as nat;
    assert(weighed > 0) by (nonlinear_arith)
        requires
            weighed == (rounds - 1) * (total * total),
            total == per_unit * (rounds * units),
            per_unit > 0,
            rounds >= 2,
            units >= 1,
    ;
    assert(is_nearest_sqrt(0, weighed, 0)) by (nonlinear_arith)
        requires
            weighed > 0,
    ;
    lemma_nearest_sqrt_unique(0, weighed, 0, error);
}

/// `values` are the numbers to show for these histories.
pub open spec fn shows(values: DisplayValues, histories: Seq<Seq<u64>>, units: nat) -> bool {
    &&& values.means@.len() == histories.len()
    &&& values.deviations@.len() == histories.len()
    &&& values.errors@.len() == histories.len()
    &&& forall|i: int|
        0 <= i < histories.len() ==> is_shown_mean(
            #[trigger] histories[i],
            units,
            values.means@[i] as nat,
        )
    &&& forall|i: int|
        0 <= i < histories.len() ==> is_shown_deviation(
            #[trigger] histories[i],
            units,
            values.deviations@[i] as nat,
        )
    &&& forall|i: int|
        0 <= i < histories.len() ==> is_shown_error(
            #[trigger] histories[i],
            values.errors@[i] as nat,
        )
    &&& forall|i: int| 0 <= i < histories.len() ==> #[trigger] values.errors@[i] <= values.max_error
    &&& exists|i: int| 0 <= i < histories.len() && #[trigger] values.errors@[i] == values.max_error
}

/// The numbers to show after the rounds recorded so far, where one
/// invocation works through `iterations` items. `None` exactly when there is
/// no item to divide by or the numbers of some candidate cannot be shown.
pub fn display_values(session: &Session, iterations: usize) -> (values: Option<DisplayValues>)
    requires
        session.wf(),
        session.rounds_spec() >= 2,
    ensures
        values is Some <==> iterations >= 1 && forall|i: int|
            0 <= i < session.candidates_spec() ==> displayable(
                #[trigger] session.histories()[i],
                session.batch_size_spec() * iterations as nat,
            ),
        values matches Some(v) ==> shows(
            v,
            session.histories(),
            session.batch_size_spec() * iterations as nat,
        ),
{
    if iterations == 0 {
        return None;
    }
    let batch: usize = session.batch_size();
    assert(batch * iterations <= 0xffff_ffff_ffff_ffff * 0xffff_ffff_ffff_ffff)
        by (nonlinear_arith)
        requires
            batch <= 0xffff_ffff_ffff_ffff,
            iterations <= 0xffff_ffff_ffff_ffff,
    ;
    assert(batch * iterations >= 1) by (nonlinear_arith)
        requires
            batch >= 1,
            iterations >= 1,
    ;
    let units: u128 = batch as u128 * iterations as u128;
    let n: usize = session.candidates();
    let ghost h = session.histories();
    let mut means: Vec<u128> = Vec::new();
    let mut deviations: Vec<u128> = Vec::new();
    let mut errors: Vec<u128> = Vec::new();
    let mut max_error: u128 = 0;
    let mut i: usize = 0;
    while i < n
        invariant
            session.wf(),
            session.rounds_spec() >= 2,
            h == session.histories(),
            n == h.len(),
            units >= 1,
            units == session.batch_size_spec() * iterations as nat,
            i <= n,
            means@.len() == i,
            deviations@.len() == i,
            errors@.len() == i,
            forall|j: int| 0 <= j < i ==> displayable(#[trigger] h[j], units as nat),
            forall|j: int|
                0 <= j < i ==> is_shown_mean(#[trigger] h[j], units as nat, means@[j] as nat),
            forall|j: int|
                0 <= j < i ==> is_shown_deviation(
                    #[trigger] h[j],
                    units as nat,
                    deviations@[j] as nat,
                ),
            forall|j: int| 0 <= j < i ==> is_shown_error(#[trigger] h[j], errors@[j] as nat),
            forall|j: int| 0 <= j < i ==> #[trigger] errors@[j] <= max_error,
            i == 0 ==> max_error == 0,
            i > 0 ==> exists|j: int| 0 <= j < i && #[trigger] errors@[j] == max_error,
        decreases n - i,
    {
        let stats = session.stats(i);
        assert(h[i as int].len() == session.rounds_spec());
        let mean: u128 = match stats.mean_thousandths_per_unit(units) {
            Some(m) => m,
            None => {
                assert(!displayable(h[i as int], units as nat));
                return None;
            },
        };
        let deviation: u128 = match stats.std_thousandths_per_unit(units) {
            Some(d) => d,
            None => {
                assert(!displayable(h[i as int], units as nat));
                return None;
            },
        };
        let error: u128 = match stats.relative_error_thousandths() {
            Ok(e) => e,
            Err(reason) => {
                assert(!displayable(h[i as int], units as nat)) by {
                    match reason {
                        crate::stats::StatsError::ZeroMean => {},
                        crate::stats::StatsError::Overflow => {},
                    }
                }
                return None;
            },
        };
        let ghost old_errors = errors@;
        let ghost old_max = max_error;
        means.push(mean);
        deviations.push(deviation);
        errors.push(error);
        if error > max_error {
            max_error = error;
        }
        proof {
            if error > old_max || i == 0 {
                assert(errors@[i as int] == max_error);
            } else {
                let w = choose|j: int| 0 <= j < i && #[trigger] old_errors[j] == old_max;
                assert(errors@[w] == max_error);
            }
        }
        i += 1;
    }
    let values = DisplayValues { means, deviations, errors, max_error };
    proof {
        assert(h.len() == session.candidates_spec());
        let w = choose|j: int| 0 <= j < n && #[trigger] values.errors@[j] == values.max_error;
        assert(0 <= w < h.len() && values.errors@[w] == values.max_error);
    }
    Some(values)
}

/// The label of a candidate: its name and a colon.
pub open spec fn label(name: Seq<char>) -> Seq<char> {
    name.push(':')
}

/// A time of `value` thousandths of a nanosecond as it is shown.
pub open spec fn cell(value: nat) -> Seq<char> {
    thousandths(value) + seq!['n', 's']
}

/// The labels of all candidates.
pub open spec fn labels(names: Seq<Seq<char>>) -> Seq<Seq<char>> {
    Seq::new(names.len(), |i: int| label(names[i]))
}

/// The cells of a column of times.
pub open spec fn cells(values: Seq<u128>) -> Seq<Seq<char>> {
    Seq::new(values.len(), |i: int| cell(values[i] as nat))
}

/// Row `i` of the table: the label, padded on the right to the widest
/// label; the mean after ` avg=`, padded on the left to the widest mean; the
/// standard deviation after ` std=`, padded on the left likewise.
pub open spec fn table_row(
    names: Seq<Seq<char>>,
    means: Seq<u128>,
    deviations: Seq<u128>,
    i: int,
) -> Seq<char> {
    left_aligned(labels(names)[i], column_width(labels(names))) + seq![' ', 'a', 'v', 'g', '=']
        + right_aligned(cells(means)[i], column_width(cells(means))) + seq![
        ' ',
        's',
        't',
        'd',
        '=',
    ] + right_aligned(cells(deviations)[i], column_width(cells(deviations)))
}

/// The line that names the round.
pub open spec fn round_line(round: nat) -> Seq<char> {
    seq!['N', '='] + decimal(round)
}

/// The line that shows the largest relative standard error and recalls the
/// stopping rule.
pub open spec fn error_line(max_error: nat) -> Seq<char> {
    "se/mean="@ + thousandths(max_error)
        + ", stop at 0.01 or after 10 iterations, whichever is later"@
}

/// The label strings of all candidates.
fn make_labels(names: &Vec<String>) -> (out: Vec<String>)
    ensures
        out@.len() == names@.len(),
        texts(out@) == labels(texts(names@)),
{
    let mut out: Vec<String> = Vec::new();
    let mut i: usize = 0;
    while i < names.len()
        invariant
            i <= names@.len(),
            out@.len() == i,
            forall|j: int| 0 <= j < i ==> (#[trigger] out@[j])@ == label(names@[j]@),
        decreases names.len() - i,
    {
        let mut text: String = names[i].clone();
        text.append(":");
        proof {
            reveal_strlit(":");
            assert(":"@ =~= seq![':']);
            assert(text@ =~= label(names@[i as int]@));
        }
        out.push(text);
        i += 1;
    }
    assert(texts(out@) =~= labels(texts(names@)));
    out
}

/// The cell strings of a column of times.
fn make_cells(values: &Vec<u128>) -> (out: Vec<String>)
    ensures
        out@.len() == values@.len(),
        texts(out@) == cells(values@),
{
    let mut out: Vec<String> = Vec::new();
    let mut i: usize = 0;
    while i < values.len()
        invariant
            i <= values@.len(),
            out@.len() == i,
            forall|j: int| 0 <= j < i ==> (#[trigger] out@[j])@ == cell(values@[j] as nat),
        decreases values.len() - i,
    {
        let mut text: String = String::new();
        push_thousandths(&mut text, values[i]);
        text.append("ns");
        proof {
            reveal_strlit("ns");
            assert("ns"@ =~= seq!['n', 's']);
            assert(text@ =~= cell(values@[i as int] as nat));
        }
        out.push(text);
        i += 1;
    }
    assert(texts(out@) =~= cells(values@));
    out
}

/// The table of a report: one row per candidate, with its name, its mean
/// and its standard deviation in columns.
pub fn render_table(names: &Vec<String>, means: &Vec<u128>, deviations: &Vec<u128>) -> (rows: Vec<
    String,
>)
    requires
        means@.len() == names@.len(),
        deviations@.len() == names@.len(),
    ensures
        rows@.len() == names@.len(),
        forall|i: int|
            0 <= i < rows@.len() ==> (#[trigger] rows@[i])@ == table_row(
                texts(names@),
                means@,
                deviations@,
                i,
            ),
{
    let label_words: Vec<String> = make_labels(names);
    let mean_words: Vec<String> = make_cells(means);
    let deviation_words: Vec<String> = make_cells(deviations);
    let mut w: AlignedWriter = AlignedWriter::new(names.len());
    w.write_n_l(&label_words);
    w.write(" avg=");
    w.write_n_r(&mean_words);
    w.write(" std=");
    w.write_n_r(&deviation_words);
    let rows: Vec<String> = w.into_lines();
    proof {
        reveal_strlit(" avg=");
        reveal_strlit(" std=");
        assert(" avg="@ =~= seq![' ', 'a', 'v', 'g', '=']);
        assert(" std="@ =~= seq![' ', 's', 't', 'd', '=']);
        lemma_ascii_fills_own_column(" avg="@);
        lemma_ascii_fills_own_column(" std="@);
        assert forall|i: int| 0 <= i < rows@.len() implies (#[trigger] rows@[i])@ =~= table_row(
            texts(names@),
            means@,
            deviations@,
            i,
        ) by {
            assert(texts(rows@)[i] == rows@[i]@);
            assert(texts(label_words@)[i] == label_words@[i]@);
            assert(texts(mean_words@)[i] == mean_words@[i]@);
            assert(texts(deviation_words@)[i] == deviation_words@[i]@);
        }
    }
    rows
}

/// The whole report of a round: the line that names the round, the table,
/// and the line with the largest relative standard error.
pub fn render_report(round: usize, names: &Vec<String>, values: &DisplayValues) -> (lines: Vec<
    String,
>)
    requires
        values.means@.len() == names@.len(),
        values.deviations@.len() == names@.len(),
    ensures
        lines@.len() == names@.len() + 2,
        lines@[0]@ == round_line(round as nat),
        forall|i: int|
            0 <= i < names@.len() ==> (#[trigger] lines@[i + 1])@ == table_row(
                texts(names@),
                values.means@,
                values.deviations@,
                i,
            ),
        lines@[names@.len() as int + 1]@ == error_line(values.max_error as nat),
{
    let mut lines: Vec<String> = Vec::new();
    let mut first: String = String::new();
    first.append("N=");
    push_decimal(&mut first, round as u128);
    proof {
        reveal_strlit("N=");
        assert("N="@ =~= seq!['N', '=']);
        assert(first@ =~= round_line(round as nat));
    }
    lines.push(first);
    let rows: Vec<String> = render_table(names, &values.means, &values.deviations);
    let mut i: usize = 0;
    while i < rows.len()
        invariant
            i <= rows@.len(),
            lines@.len() == i + 1,
            lines@[0]@ == round_line(round as nat),
            forall|j: int| 0 <= j < i ==> (#[trigger] lines@[j + 1])@ == rows@[j]@,
        decreases rows.len() - i,
    {
        lines.push(rows[i].clone());
        i += 1;
    }
    let mut last: String = String::new();
    last.append("se/mean=");
    push_thousandths(&mut last, values.max_error);
    last.append(", stop at 0.01 or after 10 iterations, whichever is later");
    assert(last@ =~= error_line(values.max_error as nat));
    lines.push(last);
    lines
}

} // verus!
