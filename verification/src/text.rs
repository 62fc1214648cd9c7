//! Texts as sequences of characters: equality, copies, search, and joining.

use vstd::prelude::*;
use vstd::string::StringExecFns;
use vstd::utf8::*;

pub mod case;
pub mod numeral;
pub mod order;
pub mod space;

verus! {

/// A text is the sequence of characters of a string.
pub type Text = Seq<char>;

/// A row of a table, or a sequence of tokens: texts in order.
pub type Row = Seq<Text>;

/// A table: rows in order, the first of which is the header.
pub type Table = Seq<Row>;

/// Appends `c` to `s`.
///
/// Trusted: wraps `String::push`, which appends the given character to the
/// end of the string and leaves the characters before it as they were.
#[verifier::external_body]
pub(crate) fn push_char(s: &mut String, c: char)
    ensures
        final(s)@ == old(s)@.push(c),
{
    s.push(c);
}

/// Two texts with the same UTF-8 encoding are the same text.
pub proof fn lemma_encoding_determines_text(a: Text, b: Text)
    requires
        encode_utf8(a) == encode_utf8(b),
    ensures
        a == b,
{
    encode_utf8_decode_utf8(a);
    encode_utf8_decode_utf8(b);
}

/// Whether `a` and `b` hold the same characters.
pub fn text_eq(a: &str, b: &str) -> (r: bool)
    ensures
        r == (a@ == b@),
{
    let x = a.as_bytes();
    let y = b.as_bytes();
    if x.len() != y.len() {
        return false;
    }
    let n = x.len();
    let mut i: usize = 0;
    while i < n
        invariant
            n == x@.len(),
            n == y@.len(),
            i <= n,
            x@.take(i as int) == y@.take(i as int),
            x@ == encode_utf8(a@),
            y@ == encode_utf8(b@),
        decreases n - i,
    {
        if x[i] != y[i] {
            return false;
        }
        assert(x@.take(i + 1) =~= x@.take(i as int).push(x@[i as int]));
        assert(y@.take(i + 1) =~= y@.take(i as int).push(y@[i as int]));
        i = i + 1;
    }
    proof {
        assert(x@ =~= x@.take(n as int));
        assert(y@ =~= y@.take(n as int));
        lemma_encoding_determines_text(a@, b@);
    }
    true
}

/// A copy of a sequence of strings.
pub fn clone_row(row: &Vec<String>) -> (out: Vec<String>)
    ensures
        out.deep_view() == row.deep_view(),
{
    let mut out: Vec<String> = Vec::new();
    let n = row.len();
    let mut i: usize = 0;
    while i < n
        invariant
            n == row@.len(),
            i <= n,
            out@.len() == i,
            forall|k: int| 0 <= k < i ==> out@[k]@ == row@[k]@,
        decreases n - i,
    {
        out.push(row[i].clone());
        i = i + 1;
    }
    assert(out.deep_view() =~= row.deep_view());
    out
}

/// A copy of a table.
pub fn clone_table(table: &Vec<Vec<String>>) -> (out: Vec<Vec<String>>)
    ensures
        out.deep_view() == table.deep_view(),
{
    let mut out: Vec<Vec<String>> = Vec::new();
    let n = table.len();
    let mut i: usize = 0;
    while i < n
        invariant
            n == table@.len(),
            i <= n,
            out@.len() == i,
            forall|k: int| 0 <= k < i ==> out@[k].deep_view() == table@[k].deep_view(),
        decreases n - i,
    {
        out.push(clone_row(&table[i]));
        i = i + 1;
    }
    assert(out.deep_view() =~= table.deep_view());
    out
}

/// The place of the first text of `row` that equals `word`, or the length of
/// `row` where none does.
pub open spec fn position(row: Row, word: Text) -> int
    decreases row.len(),
{
    if row.len() == 0 {
        0
    } else if row[0] == word {
        0
    } else {
        1 + position(row.drop_first(), word)
    }
}

/// `position` is a place in `row` or its length, nothing before it equals
/// `word`, and the text at it does.
pub proof fn lemma_position(row: Row, word: Text)
    ensures
        0 <= position(row, word) <= row.len(),
        forall|k: int| 0 <= k < position(row, word) ==> row[k] != word,
        position(row, word) < row.len() ==> row[position(row, word)] == word,
    decreases row.len(),
{
    if row.len() != 0 && row[0] != word {
        let rest = row.drop_first();
        lemma_position(rest, word);
        assert forall|k: int| 0 <= k < position(row, word) implies row[k] != word by {
            if k > 0 {
                assert(row[k] == rest[k - 1]);
            }
        }
    }
}

/// The place `i` is `position(row, word)` when nothing before `i` equals
/// `word` and `i` is the length of `row` or holds `word`.
pub proof fn lemma_position_is(row: Row, word: Text, i: int)
    requires
        0 <= i <= row.len(),
        forall|k: int| 0 <= k < i ==> row[k] != word,
        i < row.len() ==> row[i] == word,
    ensures
        position(row, word) == i,
{
    lemma_position(row, word);
}

/// The place of the first string of `row` that equals `word`, or the length
/// of `row` where none does.
pub fn find(row: &Vec<String>, word: &str) -> (p: usize)
    ensures
        p == position(row.deep_view(), word@),
        p <= row@.len(),
{
    let n = row.len();
    let mut i: usize = 0;
    while i < n
        invariant
            n == row@.len(),
            i <= n,
            forall|k: int| 0 <= k < i ==> row.deep_view()[k] != word@,
        decreases n - i,
    {
        if text_eq(row[i].as_str(), word) {
            proof {
                lemma_position_is(row.deep_view(), word@, i as int);
            }
            return i;
        }
        i = i + 1;
    }
    proof {
        lemma_position_is(row.deep_view(), word@, n as int);
    }
    n
}

/// The texts of `texts` in a row, with `separator` between each two.
pub open spec fn joined(texts: Row, separator: Text) -> Text
    decreases texts.len(),
{
    if texts.len() == 0 {
        Seq::empty()
    } else if texts.len() == 1 {
        texts[0]
    } else {
        joined(texts.drop_last(), separator) + separator + texts.last()
    }
}

/// The strings of `texts` in a row, with `separator` between each two.
pub fn join(texts: &Vec<String>, separator: &str) -> (out: String)
    ensures
        out@ == joined(texts.deep_view(), separator@),
{
    let mut out = String::new();
    let n = texts.len();
    let mut i: usize = 0;
    assert(texts.deep_view().take(0) =~= Seq::<Text>::empty());
    while i < n
        invariant
            n == texts@.len(),
            i <= n,
            out@ == joined(texts.deep_view().take(i as int), separator@),
        decreases n - i,
    {
        proof {
            let next = texts.deep_view().take(i + 1);
            assert(next.drop_last() =~= texts.deep_view().take(i as int));
            assert(next.last() == texts@[i as int]@);
            if i == 0 {
                assert(Seq::<char>::empty() + texts@[i as int]@ =~= texts@[i as int]@);
            }
        }
        if i > 0 {
            out.append(separator);
        }
        out.append(texts[i].as_str());
        i = i + 1;
    }
    assert(texts.deep_view().take(n as int) =~= texts.deep_view());
    out
}

/// As many hyphens as `text` has characters.
pub open spec fn dashes(text: Text) -> Text {
    Seq::new(text.len(), |i: int| '-')
}

/// As many hyphens as `text` has characters.
pub fn dashes_for(text: &str) -> (out: String)
    ensures
        out@ == dashes(text@),
{
    let mut out = String::new();
    for c in it: text.chars()
        invariant
            it.seq() == text@,
            out@ == dashes(text@.take(it.index())),
    {
        push_char(&mut out, '-');
        assert(out@ =~= dashes(text@.take(it.index() + 1)));
    }
    assert(text@.take(text@.len() as int) =~= text@);
    out
}

} // verus!
