//! The `WHERE` clause.

use vstd::prelude::*;
use crate::entity::query::{Query, QueryWhereCondition, WhereCondition};
use crate::text::{find, position, text_eq, Row, Text};

verus! {

/// `tokens` without the `AND` tokens.
pub open spec fn without_and(tokens: Row) -> Row {
    tokens.filter(|token: Text| token != "AND"@)
}

/// The predicates that `words` hold from `start` on, read in groups of four:
/// the word at the start of a group is passed over, and the three behind it
/// are a column, an operator and a value. The reading ends at a group that
/// starts with `ORDER`, and where fewer than three words follow the start.
pub open spec fn predicates_from(words: Row, start: int) -> Seq<Row>
    decreases words.len() - start,
{
    if start < 0 || start + 3 >= words.len() || words[start] == "ORDER"@ {
        Seq::empty()
    } else {
        seq![seq![words[start + 1], words[start + 2], words[start + 3]]] + predicates_from(
            words,
            start + 4,
        )
    }
}

/// The predicates that `tokens` hold: those read from the first `WHERE` on,
/// the `AND` tokens left out. Without a `WHERE`, and with a `WHERE` as the
/// first token, there are none.
pub open spec fn where_of(tokens: Row) -> Seq<Row> {
    let start = position(tokens, "WHERE"@);
    if 0 < start < tokens.len() {
        predicates_from(without_and(tokens.skip(start)), 0)
    } else {
        Seq::empty()
    }
}

/// Every predicate read from `words` is a column, an operator and a value.
pub proof fn lemma_predicates_from_are_triples(words: Row, start: int)
    ensures
        forall|i: int|
            0 <= i < predicates_from(words, start).len() ==> (#[trigger] predicates_from(
                words,
                start,
            )[i]).len() == 3,
    decreases words.len() - start,
{
    if !(start < 0 || start + 3 >= words.len() || words[start] == "ORDER"@) {
        lemma_predicates_from_are_triples(words, start + 4);
        let first = seq![words[start + 1], words[start + 2], words[start + 3]];
        let rest = predicates_from(words, start + 4);
        assert forall|i: int| 0 <= i < predicates_from(words, start).len() implies (
        #[trigger] predicates_from(words, start)[i]).len() == 3 by {
            if i == 0 {
                assert(predicates_from(words, start)[0] == first);
            } else {
                assert(predicates_from(words, start)[i] == rest[i - 1]);
            }
        }
    }
}

/// Every predicate of a query is a column, an operator and a value.
pub proof fn lemma_predicates_are_triples(tokens: Row)
    ensures
        forall|i: int|
            0 <= i < where_of(tokens).len() ==> (#[trigger] where_of(tokens)[i]).len() == 3,
{
    let start = position(tokens, "WHERE"@);
    if 0 < start < tokens.len() {
        lemma_predicates_from_are_triples(without_and(tokens.skip(start)), 0);
    }
}

impl QueryWhereCondition for Query {
    /// The predicates of the query, in the order in which it names them.
    fn get_where(&self) -> (conditions: WhereCondition)
        ensures
            conditions.deep_view() == where_of(self@),
    {
        let mut conditions: WhereCondition = Vec::new();
        let n = self.clauses.len();
        let where_index = find(&self.clauses, "WHERE");
        if where_index == 0 || where_index >= n {
            assert(conditions.deep_view() =~= Seq::<Row>::empty());
            return conditions;
        }
        let ghost tail = self@.skip(where_index as int);
        let mut where_vec: Vec<String> = Vec::new();
        let mut k: usize = where_index;
        proof {
            reveal(Seq::filter);
            assert(tail.take(0) =~= Seq::<Text>::empty());
            assert(where_vec.deep_view() =~= without_and(tail.take(0)));
        }
        while k < n
            invariant
                n == self.clauses@.len(),
                where_index <= k <= n,
                tail == self@.skip(where_index as int),
                where_vec.deep_view() == without_and(tail.take(k - where_index)),
            decreases n - k,
        {
            let v = &self.clauses[k];
            proof {
                reveal(Seq::filter);
                let next = tail.take(k + 1 - where_index);
                assert(next.drop_last() =~= tail.take(k - where_index));
                assert(next.last() == v@);
            }
            if !text_eq(v.as_str(), "AND") {
                let ghost before = where_vec.deep_view();
                where_vec.push(v.clone());
                assert(where_vec.deep_view() =~= before.push(v@));
            }
            k = k + 1;
        }
        assert(tail.take(n - where_index) =~= tail);
        let ghost words = where_vec.deep_view();
        let m = where_vec.len();
        let mut i: usize = 0;
        assert(conditions.deep_view() =~= Seq::<Row>::empty());
        while i < m && m - i > 3 && !text_eq(where_vec[i].as_str(), "ORDER")
            invariant
                m == where_vec@.len(),
                i <= m,
                words == where_vec.deep_view(),
                conditions.deep_view() + predicates_from(words, i as int) == predicates_from(
                    words,
                    0,
                ),
            decreases m - i,
        {
            let mut current: Vec<String> = Vec::new();
            current.push(where_vec[i + 1].clone());
            current.push(where_vec[i + 2].clone());
            current.push(where_vec[i + 3].clone());
            let ghost before = conditions.deep_view();
            let ghost triple = seq![words[i + 1], words[i + 2], words[i + 3]];
            assert(current.deep_view() =~= triple);
            conditions.push(current);
            assert(conditions.deep_view() =~= before.push(triple));
            assert(before.push(triple) + predicates_from(words, i + 4) =~= before + (seq![triple]
                + predicates_from(words, i + 4)));
            i = i + 4;
        }
        assert(conditions.deep_view() + predicates_from(words, i as int) =~= conditions.deep_view());
        conditions
    }
}

} // verus!
