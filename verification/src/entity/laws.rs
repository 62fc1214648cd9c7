//! What holds of the row engine, whatever the table.

use vstd::prelude::*;
use crate::entity::query::OrderView;
use crate::entity::record::{
    filter_all, filter_by, is_descending, limit_table, matching_rows, meeting, row_matches,
    sort_table,
};
use crate::entity::sorting::{
    in_order, insert_row, lemma_in_order_total, lemma_in_order_transitive, sorted_rows,
};
use crate::text::{lemma_position, position, Row, Table, Text};

verus! {

/// Whether `out` is made of rows of `table`: no more rows than `table` has,
/// under the same header, each data row a data row of `table`.
pub open spec fn drawn_from(out: Table, table: Table) -> bool {
    &&& out.len() <= table.len()
    &&& table.len() > 0 ==> out.len() > 0 && out[0] == table[0]
    &&& forall|i: int| 1 <= i < out.len() ==> table.skip(1).contains(#[trigger] out[i])
}

/// A table is made of its own rows.
pub proof fn lemma_drawn_from_itself(table: Table)
    ensures
        drawn_from(table, table),
{
    assert forall|i: int| 1 <= i < table.len() implies table.skip(1).contains(
        #[trigger] table[i],
    ) by {
        assert(table.skip(1)[i - 1] == table[i]);
    }
}

/// Rows of rows of a table are rows of the table.
pub proof fn lemma_drawn_from_transitive(a: Table, b: Table, c: Table)
    requires
        drawn_from(a, b),
        drawn_from(b, c),
    ensures
        drawn_from(a, c),
{
    assert forall|i: int| 1 <= i < a.len() implies c.skip(1).contains(#[trigger] a[i]) by {
        assert(b.skip(1).contains(a[i]));
        let j = choose|j: int| 0 <= j < b.skip(1).len() && b.skip(1)[j] == a[i];
        assert(b[j + 1] == a[i]);
        assert(c.skip(1).contains(b[j + 1]));
    }
}

/// One predicate leaves rows of the table under its header.
pub proof fn lemma_filter_by_drawn(table: Table, condition: Row, readings: Map<Text, i64>)
    ensures
        drawn_from(filter_by(table, condition, readings), table),
{
    let out = filter_by(table, condition, readings);
    lemma_drawn_from_itself(table);
    if table.len() > 0 && position(table[0], condition[0]) != table[0].len() {
        let column = position(table[0], condition[0]);
        let rows = table.skip(1);
        let kept = matching_rows(rows, column, condition[1], condition[2], readings);
        let pred = meeting(column, condition[1], condition[2], readings);
        rows.lemma_filter_len(pred);
        assert forall|i: int| 1 <= i < out.len() implies rows.contains(#[trigger] out[i]) by {
            assert(out[i] == kept[i - 1]);
            assert(kept.contains(kept[i - 1]));
            rows.lemma_filter_contains_rev(pred, out[i]);
        }
    }
}

/// The predicates leave rows of the table under its header.
pub proof fn lemma_filter_all_drawn(table: Table, conditions: Seq<Row>, readings: Map<Text, i64>)
    ensures
        drawn_from(filter_all(table, conditions, readings), table),
    decreases conditions.len(),
{
    if conditions.len() == 0 {
        lemma_drawn_from_itself(table);
    } else {
        let before = filter_all(table, conditions.drop_last(), readings);
        lemma_filter_all_drawn(table, conditions.drop_last(), readings);
        lemma_filter_by_drawn(before, conditions.last(), readings);
        lemma_drawn_from_transitive(
            filter_all(table, conditions, readings),
            before,
            table,
        );
    }
}

/// The place at which `row` goes into `sorted`: behind the last row that may
/// stand before it.
pub open spec fn insertion_place(sorted: Seq<Row>, row: Row, column: int, descending: bool) -> int
    decreases sorted.len(),
{
    if sorted.len() == 0 {
        0
    } else if in_order(sorted.last()[column], row[column], descending) {
        sorted.len() as int
    } else {
        insertion_place(sorted.drop_last(), row, column, descending)
    }
}

/// `insert_row` puts `row` at `insertion_place`: the row before that place,
/// if there is one, may stand before `row`, and no row from that place on
/// may.
pub proof fn lemma_insertion_place(sorted: Seq<Row>, row: Row, column: int, descending: bool)
    ensures
        0 <= insertion_place(sorted, row, column, descending) <= sorted.len(),
        insert_row(sorted, row, column, descending) == sorted.insert(
            insertion_place(sorted, row, column, descending),
            row,
        ),
        insertion_place(sorted, row, column, descending) > 0 ==> in_order(
            sorted[insertion_place(sorted, row, column, descending) - 1][column],
            row[column],
            descending,
        ),
        forall|k: int|
            insertion_place(sorted, row, column, descending) <= k < sorted.len() ==> !in_order(
                (#[trigger] sorted[k])[column],
                row[column],
                descending,
            ),
    decreases sorted.len(),
{
    let place = insertion_place(sorted, row, column, descending);
    if sorted.len() == 0 {
        assert(seq![row] =~= sorted.insert(place, row));
    } else if in_order(sorted.last()[column], row[column], descending) {
        assert(sorted.push(row) =~= sorted.insert(place, row));
    } else {
        let shorter = sorted.drop_last();
        lemma_insertion_place(shorter, row, column, descending);
        assert(shorter.insert(place, row).push(sorted.last()) =~= sorted.insert(place, row));
        assert forall|k: int| place <= k < sorted.len() implies !in_order(
            (#[trigger] sorted[k])[column],
            row[column],
            descending,
        ) by {
            if k < shorter.len() {
                assert(shorter[k] == sorted[k]);
            }
        }
        if place > 0 {
            assert(shorter[place - 1] == sorted[place - 1]);
        }
    }
}

/// Sorting neither drops nor adds a row: the sorted rows are the rows, each
/// as often as before.
pub proof fn lemma_sorted_rows_permutes(rows: Seq<Row>, column: int, descending: bool)
    ensures
        sorted_rows(rows, column, descending).to_multiset() == rows.to_multiset(),
        sorted_rows(rows, column, descending).len() == rows.len(),
    decreases rows.len(),
{
    if rows.len() > 0 {
        let shorter = rows.drop_last();
        let row = rows.last();
        let sorted = sorted_rows(shorter, column, descending);
        lemma_sorted_rows_permutes(shorter, column, descending);
        lemma_insertion_place(sorted, row, column, descending);
        let place = insertion_place(sorted, row, column, descending);
        let out = sorted.insert(place, row);
        assert(out.remove(place) =~= sorted);
        out.to_multiset_ensures();
        shorter.to_multiset_ensures();
        assert(out[place] == row);
        assert(out.to_multiset() =~= sorted.to_multiset().insert(row));
        assert(shorter.push(row) =~= rows);
    }
    rows.to_multiset_ensures();
    sorted_rows(rows, column, descending).to_multiset_ensures();
}

/// Sorting leaves rows of the table under its header.
pub proof fn lemma_sort_table_drawn(table: Table, order: OrderView)
    ensures
        drawn_from(sort_table(table, order), table),
        sort_table(table, order).len() == table.len(),
{
    lemma_drawn_from_itself(table);
    if table.len() > 0 && position(table[0], order.column) != table[0].len() {
        let column = position(table[0], order.column);
        let rows = table.skip(1);
        let sorted = sorted_rows(rows, column, is_descending(order));
        let out = sort_table(table, order);
        lemma_sorted_rows_permutes(rows, column, is_descending(order));
        sorted.to_multiset_ensures();
        rows.to_multiset_ensures();
        assert forall|i: int| 1 <= i < out.len() implies rows.contains(#[trigger] out[i]) by {
            assert(out[i] == sorted[i - 1]);
            assert(sorted.contains(sorted[i - 1]));
            assert(sorted.to_multiset().count(out[i]) > 0);
            assert(rows.to_multiset().count(out[i]) > 0);
        }
    }
}

/// A limit leaves rows of the table under its header.
pub proof fn lemma_limit_table_drawn(table: Table, limit: nat)
    ensures
        drawn_from(limit_table(table, limit), table),
{
    let out = limit_table(table, limit);
    assert forall|i: int| 1 <= i < out.len() implies table.skip(1).contains(#[trigger] out[i]) by {
        assert(table.skip(1)[i - 1] == out[i]);
    }
}

/// Whether the rows stand in the order of their cells in `column`.
pub open spec fn rows_in_order(rows: Seq<Row>, column: int, descending: bool) -> bool {
    forall|i: int, j: int|
        0 <= i < j < rows.len() ==> in_order(
            (#[trigger] rows[i])[column],
            (#[trigger] rows[j])[column],
            descending,
        )
}

/// The test of a row for having the cell `key` in `column`.
pub open spec fn has_key(column: int, key: Text) -> spec_fn(Row) -> bool {
    |row: Row| row[column] == key
}

/// The rows of `rows` whose cell in `column` is `key`, in their order.
pub open spec fn rows_with_key(rows: Seq<Row>, column: int, key: Text) -> Seq<Row> {
    rows.filter(has_key(column, key))
}

/// A filter that no row passes leaves nothing.
proof fn lemma_filter_none(rows: Seq<Row>, pred: spec_fn(Row) -> bool)
    requires
        forall|i: int| 0 <= i < rows.len() ==> !pred(#[trigger] rows[i]),
    ensures
        rows.filter(pred) == Seq::<Row>::empty(),
    decreases rows.len(),
{
    reveal(Seq::filter);
    if rows.len() > 0 {
        let shorter = rows.drop_last();
        assert forall|i: int| 0 <= i < shorter.len() implies !pred(#[trigger] shorter[i]) by {
            assert(shorter[i] == rows[i]);
        }
        lemma_filter_none(shorter, pred);
        assert(!pred(rows[rows.len() - 1]));
    }
}

/// A filter that every row passes leaves the rows as they are.
proof fn lemma_filter_every(rows: Seq<Row>, pred: spec_fn(Row) -> bool)
    requires
        forall|i: int| 0 <= i < rows.len() ==> pred(#[trigger] rows[i]),
    ensures
        rows.filter(pred) == rows,
    decreases rows.len(),
{
    reveal(Seq::filter);
    if rows.len() > 0 {
        let shorter = rows.drop_last();
        assert forall|i: int| 0 <= i < shorter.len() implies pred(#[trigger] shorter[i]) by {
            assert(shorter[i] == rows[i]);
        }
        lemma_filter_every(shorter, pred);
        assert(pred(rows[rows.len() - 1]));
        assert(shorter.push(rows.last()) =~= rows);
    }
}

/// Sorted rows stand in the order of their cells in `column`.
pub proof fn lemma_sorted_rows_in_order(rows: Seq<Row>, column: int, descending: bool)
    ensures
        rows_in_order(sorted_rows(rows, column, descending), column, descending),
    decreases rows.len(),
{
    if rows.len() > 0 {
        let row = rows.last();
        let sorted = sorted_rows(rows.drop_last(), column, descending);
        lemma_sorted_rows_in_order(rows.drop_last(), column, descending);
        lemma_insertion_place(sorted, row, column, descending);
        let place = insertion_place(sorted, row, column, descending);
        let out = sorted.insert(place, row);
        assert forall|i: int, j: int| 0 <= i < j < out.len() implies in_order(
            (#[trigger] out[i])[column],
            (#[trigger] out[j])[column],
            descending,
        ) by {
            if j < place {
                assert(out[i] == sorted[i] && out[j] == sorted[j]);
            } else if j == place {
                assert(out[i] == sorted[i]);
                assert(out[j] == row);
                if i < place - 1 {
                    assert(in_order(sorted[i][column], sorted[place - 1][column], descending));
                    lemma_in_order_transitive(
                        sorted[i][column],
                        sorted[place - 1][column],
                        row[column],
                        descending,
                    );
                }
            } else if i == place {
                assert(out[i] == row);
                assert(out[j] == sorted[j - 1]);
                assert(!in_order(sorted[j - 1][column], row[column], descending));
                lemma_in_order_total(sorted[j - 1][column], row[column], descending);
            } else if i < place {
                assert(out[i] == sorted[i]);
                assert(out[j] == sorted[j - 1]);
            } else {
                assert(out[i] == sorted[i - 1]);
                assert(out[j] == sorted[j - 1]);
            }
        }
    }
}

/// Sorting is stable: the rows with one and the same cell in `column` stand
/// among the sorted rows in the order in which they came.
pub proof fn lemma_sorted_rows_stable(rows: Seq<Row>, column: int, descending: bool, key: Text)
    ensures
        rows_with_key(sorted_rows(rows, column, descending), column, key) == rows_with_key(
            rows,
            column,
            key,
        ),
    decreases rows.len(),
{
    let pred = has_key(column, key);
    if rows.len() == 0 {
        assert(sorted_rows(rows, column, descending) == rows);
    } else {
        let row = rows.last();
        let shorter = rows.drop_last();
        let sorted = sorted_rows(shorter, column, descending);
        lemma_sorted_rows_stable(shorter, column, descending, key);
        assert(sorted.filter(pred) == shorter.filter(pred));
        lemma_insertion_place(sorted, row, column, descending);
        let place = insertion_place(sorted, row, column, descending);
        let front = sorted.take(place);
        let back = sorted.skip(place);
        let out = sorted_rows(rows, column, descending);
        assert(sorted =~= front + back);
        assert(out =~= front.push(row) + back);
        Seq::filter_distributes_over_add(front, back, pred);
        Seq::filter_distributes_over_add(front.push(row), back, pred);
        assert(sorted.filter(pred) == front.filter(pred) + back.filter(pred));
        assert(out.filter(pred) == front.push(row).filter(pred) + back.filter(pred));
        assert(front.push(row).drop_last() =~= front);
        assert(front.push(row).last() == row);
        if pred(row) {
            assert(front.push(row).filter(pred) == front.filter(pred).push(row)) by {
                reveal(Seq::filter);
            }
            assert(rows.filter(pred) == shorter.filter(pred).push(row)) by {
                reveal(Seq::filter);
            }
            assert forall|i: int| 0 <= i < back.len() implies !pred(#[trigger] back[i]) by {
                assert(back[i] == sorted[place + i]);
                lemma_in_order_total(key, key, descending);
            }
            lemma_filter_none(back, pred);
            assert(out.filter(pred) =~= sorted.filter(pred).push(row));
        } else {
            assert(front.push(row).filter(pred) == front.filter(pred)) by {
                reveal(Seq::filter);
            }
            assert(rows.filter(pred) == shorter.filter(pred)) by {
                reveal(Seq::filter);
            }
        }
    }
}

/// Rows that stand in order are left as they are by sorting.
pub proof fn lemma_sorted_rows_fixes_ordered(rows: Seq<Row>, column: int, descending: bool)
    requires
        rows_in_order(rows, column, descending),
    ensures
        sorted_rows(rows, column, descending) == rows,
    decreases rows.len(),
{
    if rows.len() > 0 {
        let shorter = rows.drop_last();
        assert forall|i: int, j: int| 0 <= i < j < shorter.len() implies in_order(
            (#[trigger] shorter[i])[column],
            (#[trigger] shorter[j])[column],
            descending,
        ) by {
            assert(shorter[i] == rows[i] && shorter[j] == rows[j]);
        }
        lemma_sorted_rows_fixes_ordered(shorter, column, descending);
        if shorter.len() > 0 {
            assert(shorter.last() == rows[rows.len() - 2]);
            assert(rows.last() == rows[rows.len() - 1]);
        }
        assert(shorter.push(rows.last()) =~= rows);
    }
}

/// Whether the data rows of `table` stand in the order that `order` asks
/// for, where the header names the column of `order`.
pub open spec fn table_in_order(table: Table, order: OrderView) -> bool {
    table.len() > 0 && position(table[0], order.column) < table[0].len() ==> rows_in_order(
        table.skip(1),
        position(table[0], order.column),
        is_descending(order),
    )
}

/// A sorted table is in order.
pub proof fn lemma_sort_table_in_order(table: Table, order: OrderView)
    ensures
        table_in_order(sort_table(table, order), order),
{
    if table.len() > 0 {
        lemma_position(table[0], order.column);
        let column = position(table[0], order.column);
        if column < table[0].len() {
            lemma_sorted_rows_in_order(table.skip(1), column, is_descending(order));
            assert(sort_table(table, order).skip(1) =~= sorted_rows(
                table.skip(1),
                column,
                is_descending(order),
            ));
        }
    }
}

/// Sorting a table that is in order returns the same table.
pub proof fn lemma_sort_table_fixes_ordered(table: Table, order: OrderView)
    requires
        table_in_order(table, order),
    ensures
        sort_table(table, order) == table,
{
    if table.len() > 0 {
        lemma_position(table[0], order.column);
        let column = position(table[0], order.column);
        if column < table[0].len() {
            lemma_sorted_rows_fixes_ordered(table.skip(1), column, is_descending(order));
            assert(seq![table[0]] + table.skip(1) =~= table);
        }
    }
}

/// Sorting twice is sorting once.
pub proof fn lemma_sort_table_idempotent(table: Table, order: OrderView)
    ensures
        sort_table(sort_table(table, order), order) == sort_table(table, order),
{
    lemma_sort_table_in_order(table, order);
    lemma_sort_table_fixes_ordered(sort_table(table, order), order);
}

/// Whether every data row of `table` meets the predicate `condition`, where
/// the header names its column.
pub open spec fn satisfies(table: Table, condition: Row, readings: Map<Text, i64>) -> bool {
    table.len() > 0 && position(table[0], condition[0]) < table[0].len() ==> forall|i: int|
        1 <= i < table.len() ==> row_matches(
            #[trigger] table[i],
            position(table[0], condition[0]),
            condition[1],
            condition[2],
            readings,
        )
}

/// A predicate that every data row meets leaves the table as it is.
pub proof fn lemma_filter_by_fixes_satisfied(
    table: Table,
    condition: Row,
    readings: Map<Text, i64>,
)
    requires
        satisfies(table, condition, readings),
    ensures
        filter_by(table, condition, readings) == table,
{
    if table.len() > 0 {
        lemma_position(table[0], condition[0]);
        let column = position(table[0], condition[0]);
        if column < table[0].len() {
            let rows = table.skip(1);
            let pred = meeting(column, condition[1], condition[2], readings);
            assert forall|i: int| 0 <= i < rows.len() implies pred(#[trigger] rows[i]) by {
                assert(rows[i] == table[i + 1]);
            }
            lemma_filter_every(rows, pred);
            assert(seq![table[0]] + rows =~= table);
        }
    }
}

/// What a predicate leaves meets the predicate.
pub proof fn lemma_filter_by_satisfies(table: Table, condition: Row, readings: Map<Text, i64>)
    ensures
        satisfies(filter_by(table, condition, readings), condition, readings),
{
    if table.len() > 0 {
        lemma_position(table[0], condition[0]);
        let column = position(table[0], condition[0]);
        if column < table[0].len() {
            let rows = table.skip(1);
            let pred = meeting(column, condition[1], condition[2], readings);
            let kept = rows.filter(pred);
            let out = filter_by(table, condition, readings);
            assert forall|i: int| 1 <= i < out.len() implies row_matches(
                #[trigger] out[i],
                column,
                condition[1],
                condition[2],
                readings,
            ) by {
                assert(out[i] == kept[i - 1]);
                rows.lemma_filter_pred(pred, i - 1);
            }
        }
    }
}

/// A table made of rows of a table that meets a predicate meets it too.
pub proof fn lemma_drawn_satisfies(
    out: Table,
    table: Table,
    condition: Row,
    readings: Map<Text, i64>,
)
    requires
        drawn_from(out, table),
        satisfies(table, condition, readings),
    ensures
        satisfies(out, condition, readings),
{
    if out.len() > 0 && position(out[0], condition[0]) < out[0].len() {
        assert forall|i: int| 1 <= i < out.len() implies row_matches(
            #[trigger] out[i],
            position(out[0], condition[0]),
            condition[1],
            condition[2],
            readings,
        ) by {
            assert(table.skip(1).contains(out[i]));
            let j = choose|j: int| 0 <= j < table.skip(1).len() && table.skip(1)[j] == out[i];
            assert(table[j + 1] == out[i]);
        }
    }
}

/// Predicates that every data row meets leave the table as it is.
pub proof fn lemma_filter_all_fixes_satisfied(
    table: Table,
    conditions: Seq<Row>,
    readings: Map<Text, i64>,
)
    requires
        forall|k: int| 0 <= k < conditions.len() ==> satisfies(table, #[trigger] conditions[k], readings),
    ensures
        filter_all(table, conditions, readings) == table,
    decreases conditions.len(),
{
    if conditions.len() > 0 {
        let shorter = conditions.drop_last();
        assert forall|k: int| 0 <= k < shorter.len() implies satisfies(
            table,
            #[trigger] shorter[k],
            readings,
        ) by {
            assert(shorter[k] == conditions[k]);
        }
        lemma_filter_all_fixes_satisfied(table, shorter, readings);
        assert(satisfies(table, conditions[conditions.len() - 1], readings));
        lemma_filter_by_fixes_satisfied(table, conditions.last(), readings);
    }
}

/// What the predicates leave meets each of them.
pub proof fn lemma_filter_all_satisfies(
    table: Table,
    conditions: Seq<Row>,
    readings: Map<Text, i64>,
)
    ensures
        forall|k: int|
            0 <= k < conditions.len() ==> satisfies(
                filter_all(table, conditions, readings),
                #[trigger] conditions[k],
                readings,
            ),
    decreases conditions.len(),
{
    if conditions.len() > 0 {
        let shorter = conditions.drop_last();
        let before = filter_all(table, shorter, readings);
        let out = filter_all(table, conditions, readings);
        lemma_filter_all_satisfies(table, shorter, readings);
        lemma_filter_by_satisfies(before, conditions.last(), readings);
        lemma_filter_by_drawn(before, conditions.last(), readings);
        assert forall|k: int| 0 <= k < conditions.len() implies satisfies(
            out,
            #[trigger] conditions[k],
            readings,
        ) by {
            if k < shorter.len() {
                assert(shorter[k] == conditions[k]);
                lemma_drawn_satisfies(out, before, conditions[k], readings);
            }
        }
    }
}

/// Filtering twice by the same predicates is filtering once.
pub proof fn lemma_filter_all_idempotent(
    table: Table,
    conditions: Seq<Row>,
    readings: Map<Text, i64>,
)
    ensures
        filter_all(filter_all(table, conditions, readings), conditions, readings) == filter_all(
            table,
            conditions,
            readings,
        ),
{
    lemma_filter_all_satisfies(table, conditions, readings);
    lemma_filter_all_fixes_satisfied(
        filter_all(table, conditions, readings),
        conditions,
        readings,
    );
}

/// Whether `row` meets every predicate of `conditions` whose column `header`
/// names.
pub open spec fn meets_all(
    row: Row,
    header: Row,
    conditions: Seq<Row>,
    readings: Map<Text, i64>,
) -> bool {
    forall|k: int|
        0 <= k < conditions.len() && position(header, (#[trigger] conditions[k])[0]) < header.len()
            ==> row_matches(
            row,
            position(header, conditions[k][0]),
            conditions[k][1],
            conditions[k][2],
            readings,
        )
}

/// The test of a row for meeting every predicate of `conditions` whose
/// column `header` names.
pub open spec fn meeting_all(header: Row, conditions: Seq<Row>, readings: Map<Text, i64>) -> spec_fn(
    Row,
) -> bool {
    |row: Row| meets_all(row, header, conditions, readings)
}

/// Two tests that agree on every row leave the same rows.
pub proof fn lemma_filter_same(rows: Seq<Row>, p: spec_fn(Row) -> bool, q: spec_fn(Row) -> bool)
    requires
        forall|i: int| 0 <= i < rows.len() ==> p(#[trigger] rows[i]) == q(rows[i]),
    ensures
        rows.filter(p) == rows.filter(q),
    decreases rows.len(),
{
    reveal(Seq::filter);
    if rows.len() > 0 {
        let shorter = rows.drop_last();
        assert forall|i: int| 0 <= i < shorter.len() implies p(#[trigger] shorter[i]) == q(
            shorter[i],
        ) by {
            assert(shorter[i] == rows[i]);
        }
        lemma_filter_same(shorter, p, q);
        assert(p(rows[rows.len() - 1]) == q(rows[rows.len() - 1]));
    }
}

/// One test after another leaves the rows that pass both.
proof fn lemma_filter_twice(
    rows: Seq<Row>,
    p: spec_fn(Row) -> bool,
    q: spec_fn(Row) -> bool,
    both: spec_fn(Row) -> bool,
)
    requires
        forall|i: int| 0 <= i < rows.len() ==> both(#[trigger] rows[i]) == (p(rows[i]) && q(rows[i])),
    ensures
        rows.filter(p).filter(q) == rows.filter(both),
    decreases rows.len(),
{
    reveal(Seq::filter);
    if rows.len() > 0 {
        let shorter = rows.drop_last();
        let last = rows.last();
        assert forall|i: int| 0 <= i < shorter.len() implies both(#[trigger] shorter[i]) == (p(
            shorter[i],
        ) && q(shorter[i])) by {
            assert(shorter[i] == rows[i]);
        }
        lemma_filter_twice(shorter, p, q, both);
        assert(both(rows[rows.len() - 1]) == (p(last) && q(last)));
        if p(last) {
            assert(shorter.filter(p).push(last).drop_last() =~= shorter.filter(p));
        }
    }
}

/// The predicates are joined by "and": what they leave of a table, one after
/// the other, is the header and the data rows that meet every predicate whose
/// column the header names.
pub proof fn lemma_filter_all_is_conjunction(
    table: Table,
    conditions: Seq<Row>,
    readings: Map<Text, i64>,
)
    requires
        table.len() > 0,
    ensures
        filter_all(table, conditions, readings) == seq![table[0]] + table.skip(1).filter(
            meeting_all(table[0], conditions, readings),
        ),
    decreases conditions.len(),
{
    let header = table[0];
    let rows = table.skip(1);
    let all = meeting_all(header, conditions, readings);
    if conditions.len() == 0 {
        lemma_filter_every(rows, all);
        assert(seq![header] + rows =~= table);
    } else {
        let shorter = conditions.drop_last();
        let last = conditions.last();
        let earlier = meeting_all(header, shorter, readings);
        let before = filter_all(table, shorter, readings);
        lemma_filter_all_is_conjunction(table, shorter, readings);
        lemma_position(header, last[0]);
        let column = position(header, last[0]);
        assert(before[0] == header);
        assert(before.skip(1) =~= rows.filter(earlier));
        assert forall|row: Row| meets_all(row, header, conditions, readings) == (meets_all(
            row,
            header,
            shorter,
            readings,
        ) && (column < header.len() ==> row_matches(row, column, last[1], last[2], readings))) by {
            if meets_all(row, header, conditions, readings) {
                assert forall|k: int|
                    0 <= k < shorter.len() && position(header, (#[trigger] shorter[k])[0])
                        < header.len() implies row_matches(
                    row,
                    position(header, shorter[k][0]),
                    shorter[k][1],
                    shorter[k][2],
                    readings,
                ) by {
                    assert(shorter[k] == conditions[k]);
                }
                assert(conditions[conditions.len() - 1] == last);
            }
            if meets_all(row, header, shorter, readings) && (column < header.len() ==> row_matches(
                row,
                column,
                last[1],
                last[2],
                readings,
            )) {
                assert forall|k: int|
                    0 <= k < conditions.len() && position(header, (#[trigger] conditions[k])[0])
                        < header.len() implies row_matches(
                    row,
                    position(header, conditions[k][0]),
                    conditions[k][1],
                    conditions[k][2],
                    readings,
                ) by {
                    if k < shorter.len() {
                        assert(shorter[k] == conditions[k]);
                    }
                }
            }
        }
        if column == header.len() {
            lemma_filter_same(rows, earlier, all);
        } else {
            let one = meeting(column, last[1], last[2], readings);
            lemma_filter_twice(rows, earlier, one, all);
        }
    }
}

} // verus!
