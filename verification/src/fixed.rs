//! Whole numbers as text, and numbers of thousandths as text with three
//! decimals.

use vstd::prelude::*;
use vstd::string::StringExecFns;

verus! {

/// The character of a digit below ten.
pub open spec fn digit_char(d: nat) -> char
    recommends
        d < 10,
{
    ((d + 48) as u8) as char
}

/// The decimal digits of `n`, most significant first, without leading
/// zeros; `0` for zero.
pub open spec fn decimal(n: nat) -> Seq<char>
    decreases n,
{
    if n < 10 {
        seq![digit_char(n)]
    } else {
        decimal(n / 10).push(digit_char(n % 10))
    }
}

/// `n` thousandths with three decimals: the whole part, a point, and the
/// thousandths with leading zeros.
pub open spec fn thousandths(n: nat) -> Seq<char> {
    decimal(n / 1000) + seq![
        '.',
        digit_char((n / 100) % 10),
        digit_char((n / 10) % 10),
        digit_char(n % 10),
    ]
}

/// Appends the character of the digit `d` to `text`.
fn push_digit(text: &mut String, d: u8)
    requires
        d < 10,
    ensures
        final(text)@ == old(text)@.push(digit_char(d as nat)),
{
    let c: char = (d + 48) as char;
    text.push(c);
}

/// Appends the decimal digits of `n` to `text`.
pub fn push_decimal(text: &mut String, n: u128)
    ensures
        final(text)@ == old(text)@ + decimal(n as nat),
    decreases n,
{
    if n < 10 {
        push_digit(text, n as u8);
        assert(text@ =~= old(text)@ + decimal(n as nat));
    } else {
        push_decimal(text, n / 10);
        push_digit(text, (n % 10) as u8);
        assert(text@ =~= old(text)@ + decimal(n as nat));
    }
}

/// Appends `n` thousandths with three decimals to `text`.
pub fn push_thousandths(text: &mut String, n: u128)
    ensures
        final(text)@ == old(text)@ + thousandths(n as nat),
{
    push_decimal(text, n / 1000);
    text.append(".");
    proof {
        reveal_strlit(".");
        assert("."@ =~= seq!['.']);
    }
    push_digit(text, ((n / 100) % 10) as u8);
    push_digit(text, ((n / 10) % 10) as u8);
    push_digit(text, (n % 10) as u8);
    assert(text@ =~= old(text)@ + thousandths(n as nat));
}

} // verus!
