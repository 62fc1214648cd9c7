//! White space, and texts without the white space around them.

use vstd::prelude::*;
use crate::text::{push_char, Text};

verus! {

/// Whether `c` is white space.
pub open spec fn is_space(c: char) -> bool {
    ||| '\u{9}' <= c && c <= '\u{d}'
    ||| c == ' '
    ||| c == '\u{85}'
    ||| c == '\u{a0}'
    ||| c == '\u{1680}'
    ||| '\u{2000}' <= c && c <= '\u{200a}'
    ||| c == '\u{2028}'
    ||| c == '\u{2029}'
    ||| c == '\u{202f}'
    ||| c == '\u{205f}'
    ||| c == '\u{3000}'
}

/// Whether `c` is white space.
pub fn is_space_char(c: char) -> (r: bool)
    ensures
        r == is_space(c),
{
    ('\u{9}' <= c && c <= '\u{d}') || c == ' ' || c == '\u{85}' || c == '\u{a0}' || c
        == '\u{1680}' || ('\u{2000}' <= c && c <= '\u{200a}') || c == '\u{2028}' || c
        == '\u{2029}' || c == '\u{202f}' || c == '\u{205f}' || c == '\u{3000}'
}

/// How many characters of white space `text` begins with.
pub open spec fn leading_space(text: Text) -> int
    decreases text.len(),
{
    if text.len() > 0 && is_space(text[0]) {
        1 + leading_space(text.drop_first())
    } else {
        0
    }
}

/// How many characters of white space `text` ends with.
pub open spec fn trailing_space(text: Text) -> int
    decreases text.len(),
{
    if text.len() > 0 && is_space(text.last()) {
        1 + trailing_space(text.drop_last())
    } else {
        0
    }
}

/// `text` without the white space that it begins and ends with.
pub open spec fn trimmed(text: Text) -> Text {
    let start = leading_space(text);
    if start == text.len() {
        Seq::empty()
    } else {
        text.subrange(start, text.len() - trailing_space(text))
    }
}

/// The white space in front ends at `i` when all before `i` is white space
/// and `i` is the end or holds none.
pub proof fn lemma_leading_space_is(text: Text, i: int)
    requires
        0 <= i <= text.len(),
        forall|k: int| 0 <= k < i ==> is_space(#[trigger] text[k]),
        i < text.len() ==> !is_space(text[i]),
    ensures
        leading_space(text) == i,
    decreases i,
{
    if i > 0 {
        let rest = text.drop_first();
        assert(is_space(text[0]));
        assert forall|k: int| 0 <= k < i - 1 implies is_space(#[trigger] rest[k]) by {
            assert(rest[k] == text[k + 1]);
        }
        if i < text.len() {
            assert(rest[i - 1] == text[i]);
        }
        lemma_leading_space_is(rest, i - 1);
    }
}

/// The white space behind begins at `j` when all from `j` on is white space
/// and `j` is the start or follows a character that is none.
pub proof fn lemma_trailing_space_is(text: Text, j: int)
    requires
        0 <= j <= text.len(),
        forall|k: int| j <= k < text.len() ==> is_space(#[trigger] text[k]),
        j > 0 ==> !is_space(text[j - 1]),
    ensures
        trailing_space(text) == text.len() - j,
    decreases text.len() - j,
{
    if j < text.len() {
        let rest = text.drop_last();
        assert(is_space(text[text.len() - 1]));
        assert forall|k: int| j <= k < rest.len() implies is_space(#[trigger] rest[k]) by {
            assert(rest[k] == text[k]);
        }
        if j > 0 {
            assert(rest[j - 1] == text[j - 1]);
        }
        lemma_trailing_space_is(rest, j);
    }
}

/// The string of `chars` without the white space that they begin and end
/// with.
pub fn trim(chars: &Vec<char>) -> (out: String)
    ensures
        out@ == trimmed(chars@),
{
    let n = chars.len();
    let mut start: usize = 0;
    while start < n && is_space_char(chars[start])
        invariant
            n == chars@.len(),
            start <= n,
            forall|k: int| 0 <= k < start ==> is_space(#[trigger] chars@[k]),
        decreases n - start,
    {
        start = start + 1;
    }
    proof {
        lemma_leading_space_is(chars@, start as int);
    }
    let mut out = String::new();
    if start == n {
        return out;
    }
    let mut end: usize = n;
    while end > start && is_space_char(chars[end - 1])
        invariant
            n == chars@.len(),
            start <= end <= n,
            start < n,
            !is_space(chars@[start as int]),
            forall|k: int| end <= k < n ==> is_space(#[trigger] chars@[k]),
        decreases end,
    {
        end = end - 1;
    }
    proof {
        lemma_trailing_space_is(chars@, end as int);
    }
    let mut i: usize = start;
    while i < end
        invariant
            start <= i <= end,
            end <= chars@.len(),
            out@ == chars@.subrange(start as int, i as int),
        decreases end - i,
    {
        push_char(&mut out, chars[i]);
        assert(out@ =~= chars@.subrange(start as int, i + 1));
        i = i + 1;
    }
    out
}

} // verus!
