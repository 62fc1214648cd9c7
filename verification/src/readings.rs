//! Numeric readings of texts.
//!
//! The relational operators of a predicate compare a cell and a value as
//! numbers. Reading a text as a number is not done here: the caller reads the
//! texts and hands over, for each text that is a number, a rank. Ranks are
//! integers that stand in the same order as the numbers they stand for, so
//! that comparing two ranks is comparing the two numbers.

use vstd::prelude::*;
use crate::text::order::{
    lemma_text_le_lt, lemma_text_le_total, lemma_text_le_transitive, lemma_text_lt_le,
    text_at_most, text_le, text_lt,
};
use crate::text::{text_eq, Text};

verus! {

/// The ranks of the texts that read as numbers.
pub struct NumericReadings {
    // In the order of the texts, no text twice.
    entries: Vec<(String, i64)>,
}

/// Whether the entries stand in the order of their texts, no text twice.
pub closed spec fn ascending(entries: Seq<(String, i64)>) -> bool {
    forall|i: int, j: int|
        0 <= i < j < entries.len() ==> text_lt((#[trigger] entries[i]).0@, (#[trigger] entries[j]).0@)
}

/// Whether an entry speaks of `text`.
pub closed spec fn has_text(entries: Seq<(String, i64)>, text: Text) -> bool {
    exists|i: int| 0 <= i < entries.len() && (#[trigger] entries[i]).0@ == text
}

/// The place of an entry that speaks of `text`.
pub closed spec fn place_of(entries: Seq<(String, i64)>, text: Text) -> int {
    choose|i: int| 0 <= i < entries.len() && (#[trigger] entries[i]).0@ == text
}

/// The map that the entries stand for.
pub closed spec fn entries_map(entries: Seq<(String, i64)>) -> Map<Text, i64> {
    Map::new(|text: Text| has_text(entries, text), |text: Text| entries[place_of(entries, text)].1)
}

/// In ascending entries the entry at place `i` is the one that speaks of its
/// text.
proof fn lemma_place_of(entries: Seq<(String, i64)>, i: int)
    requires
        ascending(entries),
        0 <= i < entries.len(),
    ensures
        has_text(entries, entries[i].0@),
        place_of(entries, entries[i].0@) == i,
{
    let text = entries[i].0@;
    let p = place_of(entries, text);
    assert(0 <= p < entries.len() && entries[p].0@ == text);
    if p < i {
        assert(text_lt(entries[p].0@, entries[i].0@));
    } else if i < p {
        assert(text_lt(entries[i].0@, entries[p].0@));
    }
}

/// Whether `p` is the place of `text` among ascending entries: all before it
/// stand before `text`, and `text` is at most all from it on.
spec fn is_place(entries: Seq<(String, i64)>, text: Text, p: int) -> bool {
    &&& 0 <= p <= entries.len()
    &&& forall|i: int| 0 <= i < p ==> text_lt((#[trigger] entries[i]).0@, text)
    &&& forall|i: int| p <= i < entries.len() ==> text_le(text, (#[trigger] entries[i]).0@)
}

/// Where the entry at its place does not speak of `text`, none does.
proof fn lemma_absent(entries: Seq<(String, i64)>, text: Text, p: int)
    requires
        ascending(entries),
        is_place(entries, text, p),
        p < entries.len() ==> entries[p].0@ != text,
    ensures
        !has_text(entries, text),
        forall|i: int| p <= i < entries.len() ==> text_lt(text, (#[trigger] entries[i]).0@),
{
    assert forall|i: int| p <= i < entries.len() implies text_lt(
        text,
        (#[trigger] entries[i]).0@,
    ) by {
        if i > p {
            assert(text_lt(entries[p].0@, entries[i].0@));
            lemma_text_le_lt(text, entries[p].0@, entries[i].0@);
        }
    }
    if has_text(entries, text) {
        let i = place_of(entries, text);
        assert(entries[i].0@ == text);
        if i < p {
            assert(text_lt(entries[i].0@, text));
        } else {
            assert(text_lt(text, entries[i].0@));
        }
    }
}

/// An entry put at the place of its text, of which none speaks, adds its
/// text and rank to the map and keeps the entries ascending.
proof fn lemma_insert_entry(entries: Seq<(String, i64)>, entry: (String, i64), p: int)
    requires
        ascending(entries),
        is_place(entries, entry.0@, p),
        p < entries.len() ==> entries[p].0@ != entry.0@,
    ensures
        ascending(entries.insert(p, entry)),
        entries_map(entries.insert(p, entry)) == entries_map(entries).insert(entry.0@, entry.1),
{
    let text = entry.0@;
    let grown = entries.insert(p, entry);
    lemma_absent(entries, text, p);
    assert forall|i: int, j: int| 0 <= i < j < grown.len() implies text_lt(
        (#[trigger] grown[i]).0@,
        (#[trigger] grown[j]).0@,
    ) by {
        if j < p {
            assert(grown[i] == entries[i] && grown[j] == entries[j]);
        } else if j == p {
            assert(grown[i] == entries[i]);
        } else if i == p {
            assert(grown[j] == entries[j - 1]);
        } else if i < p {
            assert(grown[i] == entries[i] && grown[j] == entries[j - 1]);
        } else {
            assert(grown[i] == entries[i - 1] && grown[j] == entries[j - 1]);
        }
    }
    assert forall|t: Text| #[trigger]
        entries_map(grown).contains_key(t) == entries_map(entries).insert(text, entry.1).contains_key(
            t,
        ) by {
        if has_text(grown, t) && t != text {
            let i = place_of(grown, t);
            if i < p {
                assert(entries[i].0@ == t);
            } else {
                assert(entries[i - 1].0@ == t);
            }
        }
        if has_text(entries, t) {
            let i = place_of(entries, t);
            if i < p {
                assert(grown[i].0@ == t);
            } else {
                assert(grown[i + 1].0@ == t);
            }
        }
        if t == text {
            assert(grown[p].0@ == t);
        }
    }
    assert forall|t: Text| entries_map(grown).contains_key(t) implies #[trigger] entries_map(
        grown,
    )[t] == entries_map(entries).insert(text, entry.1)[t] by {
        let i = place_of(grown, t);
        lemma_place_of(grown, i);
        if i == p {
        } else if i < p {
            assert(grown[i] == entries[i]);
            lemma_place_of(entries, i);
        } else {
            assert(grown[i] == entries[i - 1]);
            lemma_place_of(entries, i - 1);
        }
    }
    assert(entries_map(grown) =~= entries_map(entries).insert(text, entry.1));
}

/// An entry put in the place of the entry that speaks of its text gives the
/// text its rank in the map and keeps the entries ascending.
proof fn lemma_replace_entry(entries: Seq<(String, i64)>, entry: (String, i64), p: int)
    requires
        ascending(entries),
        0 <= p < entries.len(),
        entries[p].0@ == entry.0@,
    ensures
        ascending(entries.update(p, entry)),
        entries_map(entries.update(p, entry)) == entries_map(entries).insert(entry.0@, entry.1),
{
    let text = entry.0@;
    let changed = entries.update(p, entry);
    assert forall|i: int, j: int| 0 <= i < j < changed.len() implies text_lt(
        (#[trigger] changed[i]).0@,
        (#[trigger] changed[j]).0@,
    ) by {
        assert(changed[i].0@ == entries[i].0@ && changed[j].0@ == entries[j].0@);
    }
    assert forall|t: Text| #[trigger]
        entries_map(changed).contains_key(t) == entries_map(entries).insert(
            text,
            entry.1,
        ).contains_key(t) by {
        if has_text(changed, t) {
            let i = place_of(changed, t);
            assert(entries[i].0@ == t);
        }
        if has_text(entries, t) {
            let i = place_of(entries, t);
            assert(changed[i].0@ == t);
        }
        if t == text {
            assert(changed[p].0@ == t);
        }
    }
    assert forall|t: Text| entries_map(changed).contains_key(t) implies #[trigger] entries_map(
        changed,
    )[t] == entries_map(entries).insert(text, entry.1)[t] by {
        let i = place_of(changed, t);
        lemma_place_of(changed, i);
        assert(changed[i].0@ == entries[i].0@);
        lemma_place_of(entries, i);
    }
    assert(entries_map(changed) =~= entries_map(entries).insert(text, entry.1));
}

impl View for NumericReadings {
    type V = Map<Text, i64>;

    closed spec fn view(&self) -> Map<Text, i64> {
        entries_map(self.entries@)
    }
}

impl NumericReadings {
    #[verifier::type_invariant]
    spec fn well_formed(&self) -> bool {
        ascending(self.entries@)
    }

    /// Readings in which no text is a number.
    pub fn new() -> (r: Self)
        ensures
            r@ == Map::<Text, i64>::empty(),
    {
        let r = NumericReadings { entries: Vec::new() };
        assert(r@ =~= Map::<Text, i64>::empty());
        r
    }

    /// The place of `text` among the entries.
    fn place(&self, text: &str) -> (p: usize)
        ensures
            is_place(self.entries@, text@, p as int),
    {
        proof {
            use_type_invariant(self);
        }
        let mut low: usize = 0;
        let mut high: usize = self.entries.len();
        while low < high
            invariant
                ascending(self.entries@),
                low <= high <= self.entries@.len(),
                forall|i: int| 0 <= i < low ==> text_lt((#[trigger] self.entries@[i]).0@, text@),
                forall|i: int|
                    high <= i < self.entries@.len() ==> text_le(
                        text@,
                        (#[trigger] self.entries@[i]).0@,
                    ),
            decreases high - low,
        {
            let middle = low + (high - low) / 2;
            let ghost there = self.entries@[middle as int].0@;
            if text_at_most(text, self.entries[middle].0.as_str()) {
                assert forall|i: int| middle <= i < self.entries@.len() implies text_le(
                    text@,
                    (#[trigger] self.entries@[i]).0@,
                ) by {
                    if i > middle {
                        assert(text_lt(there, self.entries@[i].0@));
                        lemma_text_le_transitive(text@, there, self.entries@[i].0@);
                    }
                }
                high = middle;
            } else {
                assert forall|i: int| 0 <= i < middle + 1 implies text_lt(
                    (#[trigger] self.entries@[i]).0@,
                    text@,
                ) by {
                    lemma_text_le_total(text@, there);
                    if i < middle {
                        assert(text_lt(self.entries@[i].0@, there));
                        lemma_text_lt_le(self.entries@[i].0@, there, text@);
                    }
                }
                low = middle + 1;
            }
        }
        low
    }

    /// Notes that `text` reads as a number of rank `rank`, in place of what
    /// was noted of `text` before.
    pub fn record(&mut self, text: String, rank: i64)
        ensures
            final(self)@ == old(self)@.insert(text@, rank),
    {
        proof {
            use_type_invariant(&*self);
        }
        let p = self.place(text.as_str());
        let ghost entry = (text, rank);
        let ghost before = self.entries@;
        let found = p < self.entries.len() && text_eq(
            self.entries[p].0.as_str(),
            text.as_str(),
        );
        let mut entries: Vec<(String, i64)> = Vec::new();
        assert(ascending(entries@));
        core::mem::swap(&mut self.entries, &mut entries);
        if found {
            proof {
                lemma_replace_entry(before, entry, p as int);
            }
            entries.set(p, (text, rank));
        } else {
            proof {
                lemma_insert_entry(before, entry, p as int);
            }
            entries.insert(p, (text, rank));
        }
        core::mem::swap(&mut self.entries, &mut entries);
    }

    /// The rank of `text`, where it reads as a number.
    pub fn rank_of(&self, text: &str) -> (r: Option<i64>)
        ensures
            r is Some <==> self@.contains_key(text@),
            r is Some ==> r->0 == self@[text@],
    {
        proof {
            use_type_invariant(self);
        }
        let p = self.place(text);
        if p < self.entries.len() && text_eq(self.entries[p].0.as_str(), text) {
            proof {
                lemma_place_of(self.entries@, p as int);
            }
            Some(self.entries[p].1)
        } else {
            proof {
                lemma_absent(self.entries@, text@, p as int);
            }
            None
        }
    }
}

} // verus!
