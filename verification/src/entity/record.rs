//! The row engine: limiting, sorting and filtering the rows of a table.

use vstd::prelude::*;
use crate::entity::laws::{
    drawn_from, lemma_filter_all_drawn, lemma_filter_all_satisfies, lemma_sort_table_drawn,
    lemma_sort_table_in_order, satisfies, table_in_order,
};
use crate::entity::query::{Order, OrderView, WhereCondition};
use crate::entity::sorting::{sort_by_column, sorted_rows};
use crate::readings::NumericReadings;
use crate::text::{clone_row, clone_table, find, position, text_eq, Row, Table, Text};

verus! {

/// A table in memory: the header, then the data rows.
pub type Records = Vec<Vec<String>>;

/// Whether the number of rank `cell` stands to the number of rank `value` as
/// the relational `operator` says.
pub open spec fn relation_holds(operator: Text, cell: i64, value: i64) -> bool {
    if operator == "<"@ {
        cell < value
    } else if operator == ">"@ {
        cell > value
    } else if operator == "<="@ {
        cell <= value
    } else if operator == ">="@ {
        cell >= value
    } else {
        false
    }
}

/// Whether `cell` meets the predicate `operator value`.
///
/// `=` and `!=` compare the two texts as they are. The relational operators
/// compare them as numbers, and fail where either is none. Any other
/// operator fails.
pub open spec fn cell_matches(
    cell: Text,
    operator: Text,
    value: Text,
    readings: Map<Text, i64>,
) -> bool {
    if operator == "="@ {
        cell == value
    } else if operator == "!="@ {
        cell != value
    } else {
        &&& readings.contains_key(cell)
        &&& readings.contains_key(value)
        &&& relation_holds(operator, readings[cell], readings[value])
    }
}

/// Whether `row` has a cell in `column` that meets the predicate.
pub open spec fn row_matches(
    row: Row,
    column: int,
    operator: Text,
    value: Text,
    readings: Map<Text, i64>,
) -> bool {
    0 <= column < row.len() && cell_matches(row[column], operator, value, readings)
}

/// The test of a row for having a cell in `column` that meets the
/// predicate.
pub open spec fn meeting(
    column: int,
    operator: Text,
    value: Text,
    readings: Map<Text, i64>,
) -> spec_fn(Row) -> bool {
    |row: Row| row_matches(row, column, operator, value, readings)
}

/// The rows of `rows` that meet the predicate, in their order.
pub open spec fn matching_rows(
    rows: Seq<Row>,
    column: int,
    operator: Text,
    value: Text,
    readings: Map<Text, i64>,
) -> Seq<Row> {
    rows.filter(meeting(column, operator, value, readings))
}

/// `table` narrowed by one predicate `condition`, a column, an operator and a
/// value: the header stays, and of the data rows those that meet it. A table
/// without a header, and a predicate on a column that the header does not
/// name, leave the table as it is.
pub open spec fn filter_by(table: Table, condition: Row, readings: Map<Text, i64>) -> Table
    recommends
        condition.len() >= 3,
{
    if table.len() == 0 {
        table
    } else {
        let column = position(table[0], condition[0]);
        if column == table[0].len() {
            table
        } else {
            seq![table[0]] + matching_rows(
                table.skip(1),
                column,
                condition[1],
                condition[2],
                readings,
            )
        }
    }
}

/// `table` narrowed by each predicate of `conditions` in turn.
pub open spec fn filter_all(table: Table, conditions: Seq<Row>, readings: Map<Text, i64>) -> Table
    decreases conditions.len(),
{
    if conditions.len() == 0 {
        table
    } else {
        filter_by(
            filter_all(table, conditions.drop_last(), readings),
            conditions.last(),
            readings,
        )
    }
}

/// Whether `cell` meets the predicate `operator value`.
pub fn matches_condition(cell: &str, operator: &str, value: &str, readings: &NumericReadings) -> (r:
    bool)
    ensures
        r == cell_matches(cell@, operator@, value@, readings@),
{
    if text_eq(operator, "=") {
        text_eq(cell, value)
    } else if text_eq(operator, "!=") {
        !text_eq(cell, value)
    } else {
        let less = text_eq(operator, "<");
        let greater = text_eq(operator, ">");
        let at_most = text_eq(operator, "<=");
        let at_least = text_eq(operator, ">=");
        if !(less || greater || at_most || at_least) {
            return false;
        }
        match (readings.rank_of(cell), readings.rank_of(value)) {
            (Some(c), Some(v)) => {
                if less {
                    c < v
                } else if greater {
                    c > v
                } else if at_most {
                    c <= v
                } else {
                    c >= v
                }
            },
            _ => false,
        }
    }
}

/// One more row behind `rows` is one more match behind the matches of
/// `rows`, or none.
proof fn lemma_matching_rows_push(
    rows: Seq<Row>,
    row: Row,
    column: int,
    operator: Text,
    value: Text,
    readings: Map<Text, i64>,
)
    ensures
        matching_rows(rows.push(row), column, operator, value, readings) == if row_matches(
            row,
            column,
            operator,
            value,
            readings,
        ) {
            matching_rows(rows, column, operator, value, readings).push(row)
        } else {
            matching_rows(rows, column, operator, value, readings)
        },
{
    reveal(Seq::filter);
    assert(rows.push(row).drop_last() =~= rows);
}

/// Narrows `r` by one predicate.
pub fn filter_row_condition(r: Records, condition: &Vec<String>, readings: &NumericReadings) -> (out:
    Records)
    requires
        condition@.len() >= 3,
    ensures
        out.deep_view() == filter_by(r.deep_view(), condition.deep_view(), readings@),
{
    if r.len() == 0 {
        return r;
    }
    let column = find(&r[0], condition[0].as_str());
    if column == r[0].len() {
        return r;
    }
    let ghost table = r.deep_view();
    let ghost operator = condition@[1]@;
    let ghost value = condition@[2]@;
    let mut filtered: Vec<Vec<String>> = Vec::new();
    filtered.push(clone_row(&r[0]));
    let n = r.len();
    let mut i: usize = 1;
    proof {
        reveal(Seq::filter);
        assert(table.subrange(1, 1) =~= Seq::<Row>::empty());
        assert(filtered.deep_view() =~= seq![table[0]] + matching_rows(
            table.subrange(1, 1),
            column as int,
            operator,
            value,
            readings@,
        ));
    }
    while i < n
        invariant
            n == r@.len(),
            1 <= i <= n,
            table == r.deep_view(),
            condition@.len() >= 3,
            operator == condition@[1]@,
            value == condition@[2]@,
            filtered.deep_view() == seq![table[0]] + matching_rows(
                table.subrange(1, i as int),
                column as int,
                operator,
                value,
                readings@,
            ),
        decreases n - i,
    {
        let row = &r[i];
        let ghost before = filtered.deep_view();
        let ghost kept = matching_rows(
            table.subrange(1, i as int),
            column as int,
            operator,
            value,
            readings@,
        );
        proof {
            lemma_matching_rows_push(
                table.subrange(1, i as int),
                table[i as int],
                column as int,
                operator,
                value,
                readings@,
            );
            assert(table.subrange(1, i as int).push(table[i as int]) =~= table.subrange(
                1,
                i + 1,
            ));
            assert(table[i as int] == row.deep_view());
        }
        if column < row.len() && matches_condition(
            row[column].as_str(),
            condition[1].as_str(),
            condition[2].as_str(),
            readings,
        ) {
            filtered.push(clone_row(row));
            assert(filtered.deep_view() =~= before.push(row.deep_view()));
            assert(before.push(row.deep_view()) =~= seq![table[0]] + kept.push(row.deep_view()));
        }
        i = i + 1;
    }
    assert(table.subrange(1, n as int) =~= table.skip(1));
    filtered
}

/// `table` cut down to its header and its first `limit` data rows; a `limit`
/// of zero cuts nothing.
pub open spec fn limit_table(table: Table, limit: nat) -> Table {
    if limit == 0 || table.len() <= limit + 1 {
        table
    } else {
        table.take(limit as int + 1)
    }
}

/// Whether `order` asks for the descending direction.
pub open spec fn is_descending(order: OrderView) -> bool {
    order.condition == "DESC"@
}

/// Whether every data row of `table` has a cell in the column that `order`
/// names, where the header names it.
pub open spec fn has_sort_cells(table: Table, order: OrderView) -> bool {
    table.len() > 0 ==> {
        let column = position(table[0], order.column);
        column < table[0].len() ==> forall|i: int|
            1 <= i < table.len() ==> column < (#[trigger] table[i]).len()
    }
}

/// `table` with its data rows sorted as `order` says. A table without a
/// header, and an order by a column that the header does not name, leave the
/// table as it is.
pub open spec fn sort_table(table: Table, order: OrderView) -> Table {
    if table.len() == 0 {
        table
    } else {
        let column = position(table[0], order.column);
        if column == table[0].len() {
            table
        } else {
            seq![table[0]] + sorted_rows(table.skip(1), column, is_descending(order))
        }
    }
}

/// The row engine.
pub struct Record;

impl Record {
    /// The header of `records` and at most its first `limit` data rows; with
    /// a `limit` of zero, all of `records`.
    pub fn limit_rows(records: &Records, limit: u32) -> (out: Records)
        ensures
            out.deep_view() == limit_table(records.deep_view(), limit as nat),
    {
        let n = records.len();
        if limit == 0 || n <= limit as usize {
            return clone_table(records);
        }
        let keep: usize = limit as usize + 1;
        let mut out: Vec<Vec<String>> = Vec::new();
        let mut i: usize = 0;
        while i < keep
            invariant
                keep <= n,
                n == records@.len(),
                i <= keep,
                out@.len() == i,
                forall|k: int| 0 <= k < i ==> out@[k].deep_view() == records@[k].deep_view(),
            decreases keep - i,
        {
            out.push(clone_row(&records[i]));
            i = i + 1;
        }
        assert(out.deep_view() =~= records.deep_view().take(limit + 1));
        out
    }

    /// `records` with its data rows sorted by the column that `order` names,
    /// ascending, or descending where `order` says `DESC`. Rows with the
    /// same cell in that column keep their order.
    pub fn sort_rows(records: &Records, order: &Order) -> (out: Records)
        requires
            has_sort_cells(records.deep_view(), order@),
        ensures
            out.deep_view() == sort_table(records.deep_view(), order@),
            out@.len() == records@.len(),
            drawn_from(out.deep_view(), records.deep_view()),
            table_in_order(out.deep_view(), order@),
    {
        proof {
            lemma_sort_table_drawn(records.deep_view(), order@);
            lemma_sort_table_in_order(records.deep_view(), order@);
        }
        let n = records.len();
        if n == 0 {
            return clone_table(records);
        }
        let column = find(&records[0], order.column.as_str());
        if column == records[0].len() {
            return clone_table(records);
        }
        let descending = text_eq(order.condition.as_str(), "DESC");
        let ghost table = records.deep_view();
        let mut rows: Vec<Vec<String>> = Vec::new();
        let mut i: usize = 1;
        while i < n
            invariant
                n == records@.len(),
                1 <= i <= n,
                table == records.deep_view(),
                has_sort_cells(table, order@),
                column == position(table[0], order@.column),
                column < table[0].len(),
                rows@.len() == i - 1,
                forall|k: int| 0 <= k < i - 1 ==> rows@[k].deep_view() == table[k + 1],
            decreases n - i,
        {
            rows.push(clone_row(&records[i]));
            i = i + 1;
        }
        proof {
            assert(rows.deep_view() =~= table.skip(1));
            assert forall|k: int| 0 <= k < rows@.len() implies column < (#[trigger] rows@[k])@.len() by {
                assert(rows@[k]@.len() == rows@[k].deep_view().len());
                assert(table[k + 1].len() > column);
            }
        }
        let mut sorted = sort_by_column(rows, column, descending);
        let mut out: Vec<Vec<String>> = Vec::new();
        out.push(clone_row(&records[0]));
        let ghost rows_view = sorted.deep_view();
        out.append(&mut sorted);
        assert(out.deep_view() =~= seq![table[0]] + rows_view);
        out
    }

    /// `records` narrowed by each predicate of `conditions` in turn.
    pub fn fileter_rows(
        records: &Records,
        conditions: &WhereCondition,
        readings: &NumericReadings,
    ) -> (out: Records)
        requires
            forall|i: int| 0 <= i < conditions@.len() ==> (#[trigger] conditions@[i])@.len() >= 3,
        ensures
            out.deep_view() == filter_all(
                records.deep_view(),
                conditions.deep_view(),
                readings@,
            ),
            drawn_from(out.deep_view(), records.deep_view()),
            forall|k: int|
                0 <= k < conditions@.len() ==> satisfies(
                    out.deep_view(),
                    #[trigger] conditions.deep_view()[k],
                    readings@,
                ),
    {
        proof {
            lemma_filter_all_drawn(records.deep_view(), conditions.deep_view(), readings@);
            lemma_filter_all_satisfies(records.deep_view(), conditions.deep_view(), readings@);
        }
        let mut filtered = clone_table(records);
        let n = conditions.len();
        let mut i: usize = 0;
        assert(conditions.deep_view().take(0) =~= Seq::<Row>::empty());
        while i < n
            invariant
                n == conditions@.len(),
                i <= n,
                forall|k: int| 0 <= k < conditions@.len() ==> (#[trigger] conditions@[k])@.len() >= 3,
                filtered.deep_view() == filter_all(
                    records.deep_view(),
                    conditions.deep_view().take(i as int),
                    readings@,
                ),
            decreases n - i,
        {
            proof {
                let next = conditions.deep_view().take(i + 1);
                assert(next.drop_last() =~= conditions.deep_view().take(i as int));
                assert(next.last() == conditions@[i as int].deep_view());
            }
            filtered = filter_row_condition(filtered, &conditions[i], readings);
            i = i + 1;
        }
        assert(conditions.deep_view().take(n as int) =~= conditions.deep_view());
        filtered
    }
}

} // verus!
