//! Unsigned numbers in decimal digits: reading them and writing them.

use vstd::prelude::*;
use crate::text::{push_char, Text};

verus! {

/// Whether `c` is one of the ten decimal digits.
pub open spec fn is_digit(c: char) -> bool {
    '0' <= c && c <= '9'
}

/// The number that the decimal digits `digits` write.
pub open spec fn decimal_value(digits: Text) -> nat
    decreases digits.len(),
{
    if digits.len() == 0 {
        0
    } else {
        (decimal_value(digits.drop_last()) * 10 + (digits.last() as u8 - '0' as u8)) as nat
    }
}

/// Whether `text` is made of decimal digits alone.
pub open spec fn all_digits(text: Text) -> bool {
    forall|i: int| 0 <= i < text.len() ==> is_digit(#[trigger] text[i])
}

/// `text` without a plus sign in front.
pub open spec fn unsigned_digits(text: Text) -> Text {
    if text.len() > 0 && text[0] == '+' {
        text.skip(1)
    } else {
        text
    }
}

/// The unsigned number that `text` writes: decimal digits, at least one,
/// with or without a plus sign in front, and a value of at most `u32::MAX`.
/// Any other text writes none.
pub open spec fn unsigned_of(text: Text) -> Option<u32> {
    let digits = unsigned_digits(text);
    if digits.len() > 0 && all_digits(digits) && decimal_value(digits) <= u32::MAX {
        Some(decimal_value(digits) as u32)
    } else {
        None
    }
}

/// More digits behind do not make the number smaller.
pub proof fn lemma_decimal_value_grows(digits: Text, i: int)
    requires
        0 <= i <= digits.len(),
        all_digits(digits),
    ensures
        decimal_value(digits.take(i)) <= decimal_value(digits),
    decreases digits.len(),
{
    if i == digits.len() {
        assert(digits.take(i) =~= digits);
    } else {
        let shorter = digits.drop_last();
        assert forall|k: int| 0 <= k < shorter.len() implies is_digit(#[trigger] shorter[k]) by {
            assert(shorter[k] == digits[k]);
        }
        lemma_decimal_value_grows(shorter, i);
        assert(shorter.take(i) =~= digits.take(i));
        assert(is_digit(digits[digits.len() - 1]));
    }
}

/// The unsigned number that `text` writes, where it writes one.
pub fn parse_unsigned(text: &str) -> (r: Option<u32>)
    ensures
        r == unsigned_of(text@),
{
    let mut value: u64 = 0;
    let mut seen = false;
    let mut first = true;
    let ghost digits = unsigned_digits(text@);
    let ghost offset: int = text@.len() - digits.len();
    for c in it: text.chars()
        invariant
            it.seq() == text@,
            digits == unsigned_digits(text@),
            offset == text@.len() - digits.len(),
            first == (it.index() == 0),
            !first ==> it.index() >= offset,
            !first ==> seen == (it.index() > offset),
            first ==> !seen,
            !first ==> all_digits(digits.take(it.index() - offset)),
            !first ==> value == decimal_value(digits.take(it.index() - offset)),
            first ==> value == 0,
            value <= u32::MAX,
    {
        let ghost i = it.index();
        if first && c == '+' {
            first = false;
            assert(digits.take(0) =~= Seq::<char>::empty());
        } else {
            first = false;
            let ghost k = i - offset;
            assert(digits[k] == c);
            assert(digits.take(k + 1).drop_last() =~= digits.take(k));
            assert(digits.take(k + 1).last() == c);
            if !('0' <= c && c <= '9') {
                return None;
            }
            let d: u64 = ((c as u8) - ('0' as u8)) as u64;
            assert(decimal_value(digits.take(k + 1)) == decimal_value(digits.take(k)) * 10 + d) by {
                assert(digits.take(k + 1).len() > 0);
                assert(d == (digits.take(k + 1).last() as u8 - '0' as u8));
            }
            value = value * 10 + d;
            if value > u32::MAX as u64 {
                proof {
                    if all_digits(digits) {
                        lemma_decimal_value_grows(digits, k + 1);
                    }
                }
                return None;
            }
            seen = true;
            assert forall|j: int| 0 <= j < k + 1 implies is_digit(
                #[trigger] digits.take(k + 1)[j],
            ) by {
                if j < k {
                    assert(digits.take(k)[j] == digits.take(k + 1)[j]);
                }
            }
        }
    }
    assert(digits.take(digits.len() as int) =~= digits);
    if seen {
        Some(value as u32)
    } else {
        None
    }
}


/// The decimal digits that write `n`, the first of them not a zero unless
/// `n` is zero.
pub open spec fn decimal(n: nat) -> Text
    decreases n,
{
    if n < 10 {
        seq![(('0' as u8) + n as u8) as char]
    } else {
        decimal(n / 10).push((('0' as u8) + (n % 10) as u8) as char)
    }
}

/// The decimal digits that write `n`.
pub fn to_decimal(n: usize) -> (out: String)
    ensures
        out@ == decimal(n as nat),
    decreases n,
{
    if n < 10 {
        let mut out = String::new();
        push_char(&mut out, (('0' as u8) + n as u8) as char);
        assert(out@ =~= decimal(n as nat));
        out
    } else {
        let mut out = to_decimal(n / 10);
        push_char(&mut out, (('0' as u8) + (n % 10) as u8) as char);
        out
    }
}

} // verus!
