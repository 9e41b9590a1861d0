//! Decimal numbers as text: integers with their value, and the syntax of
//! real numbers.

use vstd::prelude::*;
use crate::text::{ascii_lower_text, chars_of, is_word, to_ascii_lower};

verus! {

pub open spec fn is_digit(c: char) -> bool {
    '0' <= c <= '9'
}

pub open spec fn digit_value(c: char) -> nat {
    (c as int - '0' as int) as nat
}

/// The value of a non-empty run of decimal digits; `None` for the empty
/// text and for text with any other character.
pub open spec fn digits_value(s: Seq<char>) -> Option<nat>
    decreases s.len(),
{
    if s.len() == 0 {
        None
    } else if !is_digit(s.last()) {
        None
    } else if s.len() == 1 {
        Some(digit_value(s.last()))
    } else {
        match digits_value(s.drop_last()) {
            Some(v) => Some(v * 10 + digit_value(s.last())),
            None => None,
        }
    }
}

/// The integer that a text denotes: an optional sign, then digits.
pub open spec fn signed_text_value(s: Seq<char>) -> Option<int> {
    if s.len() == 0 {
        None
    } else if s[0] == '-' {
        match digits_value(s.skip(1)) {
            Some(v) => Some(-(v as int)),
            None => None,
        }
    } else if s[0] == '+' {
        match digits_value(s.skip(1)) {
            Some(v) => Some(v as int),
            None => None,
        }
    } else {
        match digits_value(s) {
            Some(v) => Some(v as int),
            None => None,
        }
    }
}

/// The signed 64-bit integer that a text denotes, if it denotes one.
pub open spec fn i64_text_value(s: Seq<char>) -> Option<i64> {
    match signed_text_value(s) {
        Some(v) => if i64::MIN <= v <= i64::MAX {
            Some(v as i64)
        } else {
            None
        },
        None => None,
    }
}

/// The unsigned 64-bit integer that a text denotes, if it denotes one: an
/// optional plus sign, then digits.
pub open spec fn u64_text_value(s: Seq<char>) -> Option<u64> {
    if s.len() > 0 && s[0] == '-' {
        None
    } else {
        match signed_text_value(s) {
            Some(v) => if v <= u64::MAX {
                Some(v as u64)
            } else {
                None
            },
            None => None,
        }
    }
}

/// Reads a signed 64-bit integer.
///
/// Stands for `str::parse::<i64>`: an optional `+` or `-`, then at least one
/// decimal digit and nothing else; a value outside the type is refused.
#[verifier::external_body]
pub(crate) fn parse_i64_text(raw: &str) -> (r: Option<i64>)
    ensures
        r == i64_text_value(raw@),
{
    raw.parse::<i64>().ok()
}

/// Reads an unsigned 64-bit integer.
///
/// Stands for `str::parse::<u64>`: an optional `+`, then at least one decimal
/// digit and nothing else; a value outside the type is refused.
#[verifier::external_body]
pub(crate) fn parse_u64_text(raw: &str) -> (r: Option<u64>)
    ensures
        r == u64_text_value(raw@),
{
    raw.parse::<u64>().ok()
}

/// Number of consecutive digits of `s` from position `from` on.
pub open spec fn digit_run(s: Seq<char>, from: int) -> int
    decreases s.len() - from,
{
    if 0 <= from < s.len() && is_digit(s[from]) {
        1 + digit_run(s, from + 1)
    } else {
        0
    }
}

/// An exponent from position `k` to the end: an optional sign, then at
/// least one digit.
pub open spec fn exponent_valid(r: Seq<char>, k: int) -> bool {
    let k2 = if k < r.len() && (r[k] == '+' || r[k] == '-') {
        k + 1
    } else {
        k
    };
    digit_run(r, k2) > 0 && k2 + digit_run(r, k2) == r.len()
}

/// An unsigned number in lower case: digits with an optional point, at
/// least one digit on a side of it, then an optional exponent after `e`.
pub open spec fn number_valid(r: Seq<char>) -> bool {
    let a = digit_run(r, 0);
    if a < r.len() && r[a] == '.' {
        let b = digit_run(r, a + 1);
        let end = a + 1 + b;
        (a > 0 || b > 0) && (end == r.len() || (r[end] == 'e' && exponent_valid(r, end + 1)))
    } else {
        a > 0 && (a == r.len() || (r[a] == 'e' && exponent_valid(r, a + 1)))
    }
}

/// Whether a text is a real number in decimal notation: an optional sign,
/// then a number, `inf`, `infinity` or `nan`, in either case of letters.
pub open spec fn float_text_valid(s: Seq<char>) -> bool {
    let from: int = if s.len() > 0 && (s[0] == '+' || s[0] == '-') {
        1
    } else {
        0
    };
    let rest = ascii_lower_text(s.skip(from));
    rest == "inf"@ || rest == "infinity"@ || rest == "nan"@ || number_valid(rest)
}

fn count_digits(r: &Vec<char>, from: usize) -> (n: usize)
    requires
        from <= r@.len(),
    ensures
        n == digit_run(r@, from as int),
        from + n <= r@.len(),
{
    let mut i: usize = from;
    while i < r.len() && '0' <= r[i] && r[i] <= '9'
        invariant
            from <= i <= r@.len(),
            digit_run(r@, from as int) == (i - from) + digit_run(r@, i as int),
        decreases r@.len() - i,
    {
        i = i + 1;
    }
    i - from
}

fn exponent_ok(r: &Vec<char>, k: usize) -> (ok: bool)
    requires
        k <= r@.len(),
    ensures
        ok == exponent_valid(r@, k as int),
{
    let k2 = if k < r.len() && (r[k] == '+' || r[k] == '-') {
        k + 1
    } else {
        k
    };
    let d = count_digits(r, k2);
    d > 0 && k2 + d == r.len()
}

fn number_ok(r: &Vec<char>) -> (ok: bool)
    ensures
        ok == number_valid(r@),
{
    let a = count_digits(r, 0);
    if a < r.len() && r[a] == '.' {
        let b = count_digits(r, a + 1);
        let end = a + 1 + b;
        (a > 0 || b > 0) && (end == r.len() || (r[end] == 'e' && exponent_ok(r, end + 1)))
    } else {
        a > 0 && (a == r.len() || (r[a] == 'e' && exponent_ok(r, a + 1)))
    }
}

/// Whether a text is a real number in decimal notation.
pub fn is_float_text(text: &str) -> (ok: bool)
    ensures
        ok == float_text_valid(text@),
{
    let chars = chars_of(text);
    let from: usize = if chars.len() > 0 && (chars[0] == '+' || chars[0] == '-') {
        1
    } else {
        0
    };
    let mut rest: Vec<char> = Vec::new();
    let mut i: usize = from;
    while i < chars.len()
        invariant
            from <= i <= chars@.len(),
            rest@ == ascii_lower_text(chars@.skip(from as int)).take(i - from),
        decreases chars@.len() - i,
    {
        rest.push(to_ascii_lower(chars[i]));
        assert(rest@ =~= ascii_lower_text(chars@.skip(from as int)).take(i + 1 - from));
        i = i + 1;
    }
    assert(rest@ =~= ascii_lower_text(chars@.skip(from as int)));
    if number_ok(&rest) {
        return true;
    }
    is_word(&rest, "inf") || is_word(&rest, "infinity") || is_word(&rest, "nan")
}

} // verus!
