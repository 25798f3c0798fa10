//! Text helpers: the characters of a string, decimal rendering of integers,
//! and the handful of `std` string operations the rest of the crate uses.

use vstd::prelude::*;

verus! {

/// The character that stands for the decimal digit `d`.
pub open spec fn digit_char(d: nat) -> char {
    if d == 0 {
        '0'
    } else if d == 1 {
        '1'
    } else if d == 2 {
        '2'
    } else if d == 3 {
        '3'
    } else if d == 4 {
        '4'
    } else if d == 5 {
        '5'
    } else if d == 6 {
        '6'
    } else if d == 7 {
        '7'
    } else if d == 8 {
        '8'
    } else {
        '9'
    }
}

/// The decimal rendering of `n`: no sign, no leading zero, `"0"` for zero.
pub open spec fn decimal_digits(n: nat) -> Seq<char>
    decreases n,
{
    if n < 10 {
        seq![digit_char(n)]
    } else {
        decimal_digits(n / 10).push(digit_char(n % 10))
    }
}

/// Appends one character to a string.
///
/// Trusted: this is `String::push`, which std documents as appending the
/// given `char` to the end of the string.
#[verifier::external_body]
pub(crate) fn push_char(text: &mut String, c: char)
    ensures
        final(text)@ == old(text)@.push(c),
{
    text.push(c)
}

/// Whether two string slices hold the same characters.
///
/// Trusted: this is `==` on `str`, which std documents as comparing the
/// contents of the two slices.
#[verifier::external_body]
pub(crate) fn str_equal(a: &str, b: &str) -> (same: bool)
    ensures
        same == (a@ == b@),
{
    a == b
}

/// Splits a string at the first occurrence of `delimiter`.
///
/// Trusted: this is `str::split_once` with a `char` pattern. std documents
/// that it splits on the first occurrence of the delimiter and returns the
/// part before it and the part after it, or `None` where the delimiter does
/// not occur.
#[verifier::external_body]
pub(crate) fn split_at_first<'a>(text: &'a str, delimiter: char) -> (parts: Option<
    (&'a str, &'a str),
>)
    ensures
        parts is None <==> !text@.contains(delimiter),
        parts matches Some((head, tail)) ==> !head@.contains(delimiter) && text@ == head@.push(
            delimiter,
        ) + tail@,
{
    text.split_once(delimiter)
}

fn digit_to_char(d: u64) -> (c: char)
    requires
        d < 10,
    ensures
        c == digit_char(d as nat),
{
    if d == 0 {
        '0'
    } else if d == 1 {
        '1'
    } else if d == 2 {
        '2'
    } else if d == 3 {
        '3'
    } else if d == 4 {
        '4'
    } else if d == 5 {
        '5'
    } else if d == 6 {
        '6'
    } else if d == 7 {
        '7'
    } else if d == 8 {
        '8'
    } else {
        '9'
    }
}

/// Renders `n` in decimal.
pub fn decimal_string(n: u64) -> (text: String)
    ensures
        text@ == decimal_digits(n as nat),
{
    // Least significant digit first.
    let mut low_first: Vec<char> = Vec::new();
    let mut rest: u64 = n;
    while rest >= 10
        invariant
            decimal_digits(n as nat) == decimal_digits(rest as nat) + Seq::new(
                low_first@.len(),
                |i: int| low_first@[low_first@.len() - 1 - i],
            ),
        decreases rest,
    {
        let ghost before = low_first@;
        low_first.push(digit_to_char(rest % 10));
        assert(decimal_digits(rest as nat) + Seq::new(
            before.len(),
            |i: int| before[before.len() - 1 - i],
        ) =~= decimal_digits((rest / 10) as nat) + Seq::new(
            low_first@.len(),
            |i: int| low_first@[low_first@.len() - 1 - i],
        ));
        rest = rest / 10;
    }
    let ghost before = low_first@;
    low_first.push(digit_to_char(rest));
    let ghost digits = Seq::new(
        low_first@.len(),
        |i: int| low_first@[low_first@.len() - 1 - i],
    );
    assert(decimal_digits(n as nat) =~= digits) by {
        assert(decimal_digits(rest as nat) + Seq::new(
            before.len(),
            |i: int| before[before.len() - 1 - i],
        ) =~= digits);
    }
    let mut text = String::new();
    let mut left: usize = low_first.len();
    while left > 0
        invariant
            left <= low_first@.len(),
            digits.len() == low_first@.len(),
            forall|i: int| 0 <= i < digits.len() ==> digits[i] == low_first@[digits.len() - 1 - i],
            text@ == digits.take(digits.len() - left),
        decreases left,
    {
        left = left - 1;
        push_char(&mut text, low_first[left]);
        assert(text@ =~= digits.take(digits.len() - left));
    }
    assert(digits.take(digits.len() as int) =~= digits);
    text
}

} // verus!
