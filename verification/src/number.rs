//! Decimal numbers as text: reading a run of digits, writing an integer, and
//! the value of a number written in comma-separated groups.

use vstd::prelude::*;
use crate::chars::{digit_char, is_digit, to_chars};

verus! {

/// The digit character for `d`, for `0 <= d < 10`.
pub open spec fn digit_of(d: int) -> char {
    if d == 0 {
        '0'
    } else if d == 1 {
        '1'
    } else if d == 2 {
        '2'
    } else if d == 3 {
        '3'
    } else if d == 4 {
        '4'
    } else if d == 5 {
        '5'
    } else if d == 6 {
        '6'
    } else if d == 7 {
        '7'
    } else if d == 8 {
        '8'
    } else {
        '9'
    }
}

/// What the digit `c` counts for.
pub open spec fn digit_value(c: char) -> int {
    c as int - '0' as int
}

/// The decimal notation of `n`, without sign or leading zeros.
pub open spec fn decimal(n: nat) -> Seq<char>
    decreases n,
{
    if n < 10 {
        seq![digit_of(n as int)]
    } else {
        decimal(n / 10).push(digit_of((n % 10) as int))
    }
}

/// The decimal notation of `i`, with a leading `-` where it is negative.
pub open spec fn signed_decimal(i: int) -> Seq<char> {
    if i < 0 {
        seq!['-'] + decimal((-i) as nat)
    } else {
        decimal(i as nat)
    }
}

/// Every character of `text` is a decimal digit.
pub open spec fn all_digits(text: Seq<char>) -> bool {
    forall|i: int| 0 <= i < text.len() ==> digit_char(#[trigger] text[i])
}

/// The number that the digits of `text` write in base ten.
pub open spec fn digits_value(text: Seq<char>) -> nat
    decreases text.len(),
{
    if text.len() == 0 {
        0
    } else {
        (digits_value(text.drop_last()) * 10 + digit_value(text.last())) as nat
    }
}

/// The count that `text` stands for: a non-empty run of digits whose value
/// fits a signed 64-bit integer. Anything else is no count.
pub open spec fn count_of(text: Seq<char>) -> Option<int> {
    if text.len() > 0 && all_digits(text) && digits_value(text) <= i64::MAX {
        Some(digits_value(text) as int)
    } else {
        None
    }
}

/// A longer run of digits never writes a smaller number than one of its
/// prefixes.
pub proof fn lemma_digits_value_grows(text: Seq<char>, k: int)
    requires
        all_digits(text),
        0 <= k <= text.len(),
    ensures
        digits_value(text.take(k)) <= digits_value(text),
    decreases text.len() - k,
{
    if k == text.len() {
        assert(text.take(k) == text);
    } else {
        lemma_digits_value_grows(text, k + 1);
        assert(text.take(k + 1).drop_last() == text.take(k));
        assert(digit_char(text[k]));
        assert(text.take(k + 1).last() == text[k]);
    }
}

/// The notation of a number is made of digits and writes that number.
pub proof fn lemma_decimal_writes(n: nat)
    ensures
        decimal(n).len() > 0,
        all_digits(decimal(n)),
        digits_value(decimal(n)) == n,
    decreases n,
{
    let d = decimal(n);
    if n < 10 {
        assert(d.drop_last() == Seq::<char>::empty());
        assert(digits_value(d.drop_last()) == 0);
        assert(digit_value(digit_of(n as int)) == n);
    } else {
        lemma_decimal_writes(n / 10);
        assert(d.drop_last() == decimal(n / 10));
        assert(digit_value(digit_of((n % 10) as int)) == n % 10);
        assert forall|i: int| 0 <= i < d.len() implies digit_char(#[trigger] d[i]) by {
            if i < d.len() - 1 {
                assert(d[i] == decimal(n / 10)[i]);
            }
        }
    }
}

fn digit_char_of(d: u64) -> (c: char)
    requires
        d < 10,
    ensures
        c == digit_of(d as int),
{
    if d == 0 {
        '0'
    } else if d == 1 {
        '1'
    } else if d == 2 {
        '2'
    } else if d == 3 {
        '3'
    } else if d == 4 {
        '4'
    } else if d == 5 {
        '5'
    } else if d == 6 {
        '6'
    } else if d == 7 {
        '7'
    } else if d == 8 {
        '8'
    } else {
        '9'
    }
}

fn value_of_digit(c: char) -> (d: i64)
    requires
        digit_char(c),
    ensures
        d == digit_value(c),
        0 <= d <= 9,
{
    if c == '0' {
        0
    } else if c == '1' {
        1
    } else if c == '2' {
        2
    } else if c == '3' {
        3
    } else if c == '4' {
        4
    } else if c == '5' {
        5
    } else if c == '6' {
        6
    } else if c == '7' {
        7
    } else if c == '8' {
        8
    } else {
        9
    }
}

/// Appends the decimal notation of `n` to `out`.
pub fn push_decimal(out: &mut String, n: u64)
    ensures
        final(out)@ == old(out)@ + decimal(n as nat),
    decreases n,
{
    if n >= 10 {
        push_decimal(out, n / 10);
    }
    out.push(digit_char_of(n % 10));
}

/// Appends the decimal notation of `i` to `out`, with its sign.
pub fn push_signed_decimal(out: &mut String, i: i64)
    ensures
        final(out)@ == old(out)@ + signed_decimal(i as int),
{
    if i < 0 {
        out.push('-');
        // -(i + 1) fits even for the least value, whose negation does not.
        let below: i64 = -(i + 1);
        let magnitude: u64 = below as u64 + 1;
        push_decimal(out, magnitude);
        assert(final(out)@ == old(out)@ + (seq!['-'] + decimal((-i) as nat)));
    } else {
        push_decimal(out, i as u64);
    }
}

/// Reads `text` as a count.
pub fn parse_count(text: &str) -> (r: Option<i64>)
    ensures
        match r {
            Some(q) => count_of(text@) == Some(q as int),
            None => count_of(text@) is None,
        },
{
    let digits = to_chars(text);
    if digits.len() == 0 {
        return None;
    }
    let mut value: i64 = 0;
    let mut i: usize = 0;
    while i < digits.len()
        invariant
            i <= digits.len(),
            digits@ == text@,
            all_digits(digits@.take(i as int)),
            value == digits_value(digits@.take(i as int)),
            0 <= value,
        decreases digits.len() - i,
    {
        let c: char = digits[i];
        if !is_digit(&c) {
            return None;
        }
        let d: i64 = value_of_digit(c);
        assert(digits@.take(i as int + 1).drop_last() == digits@.take(i as int));
        assert(digits@.take(i as int + 1).last() == c);
        assert(all_digits(digits@.take(i as int + 1))) by {
            assert forall|j: int| 0 <= j < i + 1 implies digit_char(
                #[trigger] digits@.take(i as int + 1)[j],
            ) by {
                if j < i {
                    assert(digits@.take(i as int)[j] == digits@[j]);
                }
            }
        }
        if value > (i64::MAX - d) / 10 {
            proof {
                if all_digits(digits@) {
                    lemma_digits_value_grows(digits@, i as int + 1);
                }
            }
            return None;
        }
        value = value * 10 + d;
        i += 1;
    }
    assert(digits@.take(i as int) == digits@);
    Some(value)
}

} // verus!
