//! The `SELECT` clause.

use vstd::prelude::*;
use crate::entity::query::{separator, Query, QuerySelect};
use crate::text::{position, text_eq, Row, Text};

verus! {

/// `tokens` without the separator tokens.
pub open spec fn without_separators(tokens: Row) -> Row {
    tokens.filter(|token: Text| token != separator())
}

/// The columns that `tokens` select: the tokens behind the first token and
/// before the first `FROM` behind it, or up to the end where no `FROM`
/// follows, without the separator tokens.
pub open spec fn select_of(tokens: Row) -> Row {
    if tokens.len() == 0 {
        tokens
    } else {
        let rest = tokens.skip(1);
        without_separators(rest.take(position(rest, "FROM"@)))
    }
}

impl QuerySelect for Query {
    /// The columns that the query selects, in the order in which it names
    /// them.
    fn get_select(&self) -> (columns: Vec<String>)
        ensures
            columns.deep_view() == select_of(self@),
    {
        let mut columns: Vec<String> = Vec::new();
        let n = self.clauses.len();
        if n == 0 {
            assert(columns.deep_view() =~= self@);
            return columns;
        }
        let ghost rest = self@.skip(1);
        let mut i: usize = 1;
        proof {
            reveal(Seq::filter);
            assert(rest.take(0) =~= Seq::<Text>::empty());
            assert(columns.deep_view() =~= without_separators(rest.take(0)));
        }
        while i < n
            invariant
                n == self.clauses@.len(),
                1 <= i <= n,
                rest == self@.skip(1),
                forall|k: int| 0 <= k < i - 1 ==> rest[k] != "FROM"@,
                columns.deep_view() == without_separators(rest.take(i - 1)),
            decreases n - i,
        {
            let clause = &self.clauses[i];
            assert(rest[i - 1] == clause@);
            if text_eq(clause.as_str(), "FROM") {
                proof {
                    crate::text::lemma_position_is(rest, "FROM"@, i - 1);
                }
                return columns;
            }
            proof {
                reveal(Seq::filter);
                assert(rest.take(i as int).drop_last() =~= rest.take(i - 1));
                assert(rest.take(i as int).last() == clause@);
            }
            if !text_eq(clause.as_str(), ", ") {
                let ghost before = columns.deep_view();
                columns.push(clause.clone());
                assert(columns.deep_view() =~= before.push(clause@));
            }
            i = i + 1;
        }
        proof {
            crate::text::lemma_position_is(rest, "FROM"@, n - 1);
        }
        columns
    }
}

impl Query {
    /// The columns that the query selects, in the order in which it names
    /// them.
    pub fn get_select(&self) -> (columns: Vec<String>)
        ensures
            columns.deep_view() == select_of(self@),
    {
        QuerySelect::get_select(self)
    }
}

} // verus!
