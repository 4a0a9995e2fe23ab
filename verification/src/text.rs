//! Text of the diagnostics the engine reports.

use vstd::prelude::*;
use vstd::string::*;

verus! {

/// The decimal digit `d`.
pub open spec fn digit(d: nat) -> char {
    (('0' as nat) + d) as char
}

/// `n` in decimal, without leading zeros.
pub open spec fn decimal(n: nat) -> Seq<char>
    decreases n,
{
    if n < 10 {
        seq![digit(n)]
    } else {
        decimal(n / 10).push(digit(n % 10))
    }
}

/// `u64::to_string` of std: the number in decimal, without sign or leading
/// zeros.
#[verifier::external_body]
fn u64_to_string(n: u64) -> (r: String)
    ensures
        r@ == decimal(n as nat),
{
    n.to_string()
}

/// `words` as an owned string.
pub fn text(words: &str) -> (r: String)
    ensures
        r@ == words@,
{
    words.to_owned()
}

/// `head` followed by `n` in decimal.
pub fn text_number(head: &str, n: u64) -> (r: String)
    ensures
        r@ == head@ + decimal(n as nat),
{
    let digits = u64_to_string(n);
    head.to_owned().concat(digits.as_str())
}

/// `head`, `n` in decimal, and `tail`.
pub fn text_number_text(head: &str, n: u64, tail: &str) -> (r: String)
    ensures
        r@ == head@ + decimal(n as nat) + tail@,
{
    text_number(head, n).concat(tail)
}

/// `head`, `n` in decimal, `middle` and `m` in decimal.
pub fn text_two_numbers(head: &str, n: u64, middle: &str, m: u64) -> (r: String)
    ensures
        r@ == head@ + decimal(n as nat) + middle@ + decimal(m as nat),
{
    let digits = u64_to_string(m);
    text_number(head, n).concat(middle).concat(digits.as_str())
}

/// `head` followed by `tail`.
pub fn text_text(head: &str, tail: &str) -> (r: String)
    ensures
        r@ == head@ + tail@,
{
    head.to_owned().concat(tail)
}

} // verus!
