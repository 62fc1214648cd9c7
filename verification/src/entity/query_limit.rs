//! The `LIMIT` clause.

use vstd::prelude::*;
use crate::entity::query::{Query, QueryLimit};
use crate::text::numeral::{parse_unsigned, unsigned_of};
use crate::text::{find, position, Row};

verus! {

/// The row limit that `tokens` set: the unsigned number behind the first
/// `LIMIT`. Without a `LIMIT`, without a token behind it, and with a token
/// there that writes no unsigned number, the limit is zero, which limits
/// nothing.
pub open spec fn limit_of(tokens: Row) -> u32 {
    let limit = position(tokens, "LIMIT"@);
    if limit + 1 < tokens.len() {
        match unsigned_of(tokens[limit + 1]) {
            Some(number) => number,
            None => 0,
        }
    } else {
        0
    }
}

impl QueryLimit for Query {
    /// The row limit of the query; zero where it sets none.
    fn get_limit(&self) -> (limit: u32)
        ensures
            limit == limit_of(self@),
    {
        let limit_index = find(&self.clauses, "LIMIT");
        if limit_index >= self.clauses.len() || limit_index + 1 >= self.clauses.len() {
            return 0;
        }
        match parse_unsigned(self.clauses[limit_index + 1].as_str()) {
            Some(num) => num,
            None => 0,
        }
    }
}

} // verus!
