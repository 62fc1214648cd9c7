//! The `ORDER BY` clause.

use vstd::prelude::*;
use crate::entity::query::{Order, OrderView, Query, QueryOrder};
use crate::text::{find, position, text_eq, Row};

verus! {

/// The order that `tokens` ask for. The column is the second token behind
/// the first `ORDER`; the token between the two is not looked at. The
/// direction is `DESC` where the token behind the column says so, and `ASC`
/// otherwise. Without an `ORDER`, and without a second token behind it, the
/// column is empty and the direction `ASC`.
pub open spec fn order_of(tokens: Row) -> OrderView {
    let order = position(tokens, "ORDER"@);
    if order + 2 < tokens.len() {
        OrderView {
            column: tokens[order + 2],
            condition: if order + 3 < tokens.len() && tokens[order + 3] == "DESC"@ {
                "DESC"@
            } else {
                "ASC"@
            },
        }
    } else {
        OrderView { column: Seq::empty(), condition: "ASC"@ }
    }
}

impl QueryOrder for Query {
    /// The column to sort by and the direction.
    fn get_order(&self) -> (order: Order)
        ensures
            order@ == order_of(self@),
    {
        let mut order = Order { column: String::new(), condition: "ASC".to_owned() };
        let n = self.clauses.len();
        let order_index = find(&self.clauses, "ORDER");
        if order_index < n && n - order_index > 2 {
            order.column = self.clauses[order_index + 2].clone();
            if n - order_index > 3 && text_eq(self.clauses[order_index + 3].as_str(), "DESC") {
                order.condition = "DESC".to_owned();
            }
        }
        order
    }
}

} // verus!
