//! The case of ASCII letters.

use vstd::prelude::*;
use crate::text::{push_char, Text};

verus! {

/// The small letter of an ASCII capital, and every other character itself.
pub open spec fn lower_char(c: char) -> char {
    if 'A' <= c && c <= 'Z' {
        ((c as u8) + 32) as char
    } else {
        c
    }
}

/// The capital of an ASCII small letter, and every other character itself.
pub open spec fn upper_char(c: char) -> char {
    if 'a' <= c && c <= 'z' {
        ((c as u8) - 32) as char
    } else {
        c
    }
}

/// `text` with its ASCII capitals made small.
pub open spec fn lowercase(text: Text) -> Text {
    text.map_values(|c: char| lower_char(c))
}

/// `text` with its ASCII small letters made capital.
pub open spec fn uppercase(text: Text) -> Text {
    text.map_values(|c: char| upper_char(c))
}

/// The small letter of an ASCII capital, and every other character itself.
pub fn to_lower_char(c: char) -> (r: char)
    ensures
        r == lower_char(c),
{
    if 'A' <= c && c <= 'Z' {
        ((c as u8) + 32) as char
    } else {
        c
    }
}

/// The capital of an ASCII small letter, and every other character itself.
pub fn to_upper_char(c: char) -> (r: char)
    ensures
        r == upper_char(c),
{
    if 'a' <= c && c <= 'z' {
        ((c as u8) - 32) as char
    } else {
        c
    }
}

/// `text` with its ASCII capitals made small.
pub fn to_lowercase(text: &str) -> (out: String)
    ensures
        out@ == lowercase(text@),
{
    let mut out = String::new();
    for c in it: text.chars()
        invariant
            it.seq() == text@,
            out@ == lowercase(text@.take(it.index())),
    {
        let ghost before = out@;
        push_char(&mut out, to_lower_char(c));
        assert(out@ =~= lowercase(text@.take(it.index() + 1)));
    }
    assert(text@.take(text@.len() as int) =~= text@);
    out
}

/// `text` with its ASCII small letters made capital.
pub fn to_uppercase(text: &str) -> (out: String)
    ensures
        out@ == uppercase(text@),
{
    let mut out = String::new();
    for c in it: text.chars()
        invariant
            it.seq() == text@,
            out@ == uppercase(text@.take(it.index())),
    {
        push_char(&mut out, to_upper_char(c));
        assert(out@ =~= uppercase(text@.take(it.index() + 1)));
    }
    assert(text@.take(text@.len() as int) =~= text@);
    out
}

/// Making capitals of what is in capitals changes nothing.
pub proof fn lemma_uppercase_idempotent(text: Text)
    ensures
        uppercase(uppercase(text)) == uppercase(text),
{
    assert forall|i: int| 0 <= i < text.len() implies upper_char(upper_char(text[i]))
        == upper_char(#[trigger] text[i]) by {}
    assert(uppercase(uppercase(text)) =~= uppercase(text));
}

} // verus!
