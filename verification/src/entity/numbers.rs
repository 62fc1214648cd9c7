//! The texts that a filter reads as numbers.
//!
//! The readings that a filter is given need not speak of every text. This
//! module says which texts the predicates consult, lists them, and proves
//! that readings which agree on them give the same rows.

use vstd::prelude::*;
use crate::entity::laws::{drawn_from, lemma_filter_all_drawn, lemma_filter_same};
use crate::entity::query::WhereCondition;
use crate::entity::record::{
    cell_matches, filter_all, filter_by, meeting, relation_holds, row_matches, Records,
};
use crate::text::{find, lemma_position, position, text_eq, Row, Table, Text};

verus! {

/// Whether `operator` compares numbers: it is one of `<`, `>`, `<=` and `>=`,
/// and neither `=` nor `!=`.
pub open spec fn is_relational(operator: Text) -> bool {
    &&& operator != "="@
    &&& operator != "!="@
    &&& operator == "<"@ || operator == ">"@ || operator == "<="@ || operator == ">="@
}

/// Whether the predicate `condition` on `table` reads `text` as a number:
/// its operator compares numbers, the header names its column, and `text` is
/// its value or the cell of a data row in its column.
pub open spec fn consults(table: Table, condition: Row, text: Text) -> bool {
    &&& table.len() > 0
    &&& is_relational(condition[1])
    &&& position(table[0], condition[0]) < table[0].len()
    &&& text == condition[2] || exists|i: int|
        1 <= i < table.len() && position(table[0], condition[0]) < (#[trigger] table[i]).len()
            && table[i][position(table[0], condition[0])] == text
}

/// Whether one of the predicates `conditions` on `table` reads `text` as a
/// number.
pub open spec fn consulted(table: Table, conditions: Seq<Row>, text: Text) -> bool {
    exists|k: int| 0 <= k < conditions.len() && consults(table, #[trigger] conditions[k], text)
}

/// Whether two readings say the same of `text`.
pub open spec fn agree_at(first: Map<Text, i64>, second: Map<Text, i64>, text: Text) -> bool {
    &&& first.contains_key(text) == second.contains_key(text)
    &&& first.contains_key(text) ==> first[text] == second[text]
}

/// Whether two readings say the same of every text that the predicates
/// `conditions` on `table` read as a number.
pub open spec fn agree_for(
    table: Table,
    conditions: Seq<Row>,
    first: Map<Text, i64>,
    second: Map<Text, i64>,
) -> bool {
    forall|text: Text| #[trigger] consulted(table, conditions, text) ==> agree_at(first, second, text)
}

/// A predicate decides the same of a cell under readings that say the same
/// of the cell and of the value, where it compares numbers.
proof fn lemma_cell_matches_agree(
    cell: Text,
    operator: Text,
    value: Text,
    first: Map<Text, i64>,
    second: Map<Text, i64>,
)
    requires
        is_relational(operator) ==> agree_at(first, second, cell) && agree_at(first, second, value),
    ensures
        cell_matches(cell, operator, value, first) == cell_matches(cell, operator, value, second),
{
}

/// One predicate leaves the same rows of a table drawn from `table` under
/// readings that say the same of every text that it reads on `table`.
proof fn lemma_filter_by_agree(
    part: Table,
    table: Table,
    condition: Row,
    first: Map<Text, i64>,
    second: Map<Text, i64>,
)
    requires
        drawn_from(part, table),
        forall|text: Text| #[trigger] consults(table, condition, text) ==> agree_at(first, second, text),
    ensures
        filter_by(part, condition, first) == filter_by(part, condition, second),
{
    if part.len() > 0 {
        lemma_position(part[0], condition[0]);
        let column = position(part[0], condition[0]);
        if column < part[0].len() {
            let rows = part.skip(1);
            let p = meeting(column, condition[1], condition[2], first);
            let q = meeting(column, condition[1], condition[2], second);
            assert forall|i: int| 0 <= i < rows.len() implies p(#[trigger] rows[i]) == q(rows[i]) by {
                let row = rows[i];
                assert(row == part[i + 1]);
                if column < row.len() && is_relational(condition[1]) {
                    assert(table.skip(1).contains(row));
                    let j = choose|j: int| 0 <= j < table.skip(1).len() && table.skip(1)[j] == row;
                    assert(table[j + 1] == row);
                    assert(consults(table, condition, row[column]));
                    assert(consults(table, condition, condition[2]));
                }
                if column < row.len() {
                    lemma_cell_matches_agree(
                        row[column],
                        condition[1],
                        condition[2],
                        first,
                        second,
                    );
                }
            }
            lemma_filter_same(rows, p, q);
        }
    }
}

/// Readings that say the same of every text that the predicates read leave
/// the same rows.
pub proof fn lemma_filter_all_agree(
    table: Table,
    conditions: Seq<Row>,
    first: Map<Text, i64>,
    second: Map<Text, i64>,
)
    requires
        agree_for(table, conditions, first, second),
    ensures
        filter_all(table, conditions, first) == filter_all(table, conditions, second),
    decreases conditions.len(),
{
    if conditions.len() > 0 {
        let shorter = conditions.drop_last();
        let last = conditions.last();
        assert forall|text: Text| #[trigger]
            consulted(table, shorter, text) implies agree_at(first, second, text) by {
            let k = choose|k: int| 0 <= k < shorter.len() && consults(table, #[trigger] shorter[k], text);
            assert(shorter[k] == conditions[k]);
            assert(consulted(table, conditions, text));
        }
        lemma_filter_all_agree(table, shorter, first, second);
        assert forall|text: Text| #[trigger] consults(table, last, text) implies agree_at(
            first,
            second,
            text,
        ) by {
            assert(conditions[conditions.len() - 1] == last);
            assert(consulted(table, conditions, text));
        }
        lemma_filter_all_drawn(table, shorter, first);
        lemma_filter_by_agree(filter_all(table, shorter, first), table, last, first, second);
    }
}

/// Whether `operator` compares numbers.
pub fn compares_numbers(operator: &str) -> (r: bool)
    ensures
        r == is_relational(operator@),
{
    !text_eq(operator, "=") && !text_eq(operator, "!=") && (text_eq(operator, "<") || text_eq(
        operator,
        ">",
    ) || text_eq(operator, "<=") || text_eq(operator, ">="))
}

/// The cells that `rows` have in `column`, in the order of the rows.
pub open spec fn column_cells(rows: Seq<Row>, column: int) -> Seq<Text>
    decreases rows.len(),
{
    if rows.len() == 0 {
        Seq::empty()
    } else {
        let before = column_cells(rows.drop_last(), column);
        if 0 <= column < rows.last().len() {
            before.push(rows.last()[column])
        } else {
            before
        }
    }
}

/// The texts that the predicate `condition` on `table` reads as numbers: its
/// value, then the cells of the data rows in its column.
pub open spec fn texts_read_by(table: Table, condition: Row) -> Seq<Text> {
    if table.len() > 0 && is_relational(condition[1]) && position(table[0], condition[0])
        < table[0].len() {
        seq![condition[2]] + column_cells(table.skip(1), position(table[0], condition[0]))
    } else {
        Seq::empty()
    }
}

/// The texts that the predicates `conditions` on `table` read as numbers,
/// predicate by predicate.
pub open spec fn texts_read(table: Table, conditions: Seq<Row>) -> Seq<Text>
    decreases conditions.len(),
{
    if conditions.len() == 0 {
        Seq::empty()
    } else {
        texts_read(table, conditions.drop_last()) + texts_read_by(table, conditions.last())
    }
}

/// The cells of a column are the cells that the rows have in it.
pub proof fn lemma_column_cells(rows: Seq<Row>, column: int, text: Text)
    requires
        0 <= column,
    ensures
        column_cells(rows, column).contains(text) <==> exists|i: int|
            0 <= i < rows.len() && column < (#[trigger] rows[i]).len() && rows[i][column] == text,
    decreases rows.len(),
{
    if rows.len() > 0 {
        let shorter = rows.drop_last();
        let before = column_cells(shorter, column);
        let cells = column_cells(rows, column);
        lemma_column_cells(shorter, column, text);
        if cells.contains(text) {
            let p = choose|p: int| 0 <= p < cells.len() && cells[p] == text;
            if p < before.len() {
                assert(before[p] == text);
                assert(before.contains(text));
                let i = choose|i: int|
                    0 <= i < shorter.len() && column < (#[trigger] shorter[i]).len()
                        && shorter[i][column] == text;
                assert(rows[i] == shorter[i]);
            } else {
                assert(rows[rows.len() - 1][column] == text);
            }
        }
        if exists|i: int|
            0 <= i < rows.len() && column < (#[trigger] rows[i]).len() && rows[i][column] == text {
            let i = choose|i: int|
                0 <= i < rows.len() && column < (#[trigger] rows[i]).len() && rows[i][column]
                    == text;
            if i < shorter.len() {
                assert(shorter[i] == rows[i]);
                assert(before.contains(text));
                let p = choose|p: int| 0 <= p < before.len() && before[p] == text;
                assert(cells[p] == text);
            } else {
                assert(cells[cells.len() - 1] == text);
            }
        }
    }
}

/// The texts listed for a predicate are the texts that it reads.
pub proof fn lemma_texts_read_by(table: Table, condition: Row, text: Text)
    ensures
        texts_read_by(table, condition).contains(text) <==> consults(table, condition, text),
{
    if table.len() > 0 {
        lemma_position(table[0], condition[0]);
        let column = position(table[0], condition[0]);
        if is_relational(condition[1]) && column < table[0].len() {
            let rows = table.skip(1);
            let cells = column_cells(rows, column);
            let listed = texts_read_by(table, condition);
            lemma_column_cells(rows, column, text);
            if listed.contains(text) {
                let p = choose|p: int| 0 <= p < listed.len() && listed[p] == text;
                if p > 0 {
                    assert(cells[p - 1] == text);
                    assert(cells.contains(text));
                    let i = choose|i: int|
                        0 <= i < rows.len() && column < (#[trigger] rows[i]).len() && rows[i][column]
                            == text;
                    assert(table[i + 1] == rows[i]);
                }
            }
            if consults(table, condition, text) {
                if text == condition[2] {
                    assert(listed[0] == text);
                } else {
                    let i = choose|i: int|
                        1 <= i < table.len() && column < (#[trigger] table[i]).len()
                            && table[i][column] == text;
                    assert(rows[i - 1] == table[i]);
                    assert(cells.contains(text));
                    let p = choose|p: int| 0 <= p < cells.len() && cells[p] == text;
                    assert(listed[p + 1] == text);
                }
            }
        }
    }
}

/// The texts listed for the predicates are the texts that they read.
pub proof fn lemma_texts_read(table: Table, conditions: Seq<Row>, text: Text)
    ensures
        texts_read(table, conditions).contains(text) <==> consulted(table, conditions, text),
    decreases conditions.len(),
{
    if conditions.len() > 0 {
        let shorter = conditions.drop_last();
        let last = conditions.last();
        let before = texts_read(table, shorter);
        let added = texts_read_by(table, last);
        let listed = texts_read(table, conditions);
        lemma_texts_read(table, shorter, text);
        lemma_texts_read_by(table, last, text);
        if listed.contains(text) {
            let p = choose|p: int| 0 <= p < listed.len() && listed[p] == text;
            if p < before.len() {
                assert(before[p] == text);
                assert(before.contains(text));
                let k = choose|k: int|
                    0 <= k < shorter.len() && consults(table, #[trigger] shorter[k], text);
                assert(conditions[k] == shorter[k]);
            } else {
                assert(added[p - before.len()] == text);
                assert(added.contains(text));
                assert(conditions[conditions.len() - 1] == last);
            }
        }
        if consulted(table, conditions, text) {
            let k = choose|k: int|
                0 <= k < conditions.len() && consults(table, #[trigger] conditions[k], text);
            if k < shorter.len() {
                assert(shorter[k] == conditions[k]);
                assert(before.contains(text));
                let p = choose|p: int| 0 <= p < before.len() && before[p] == text;
                assert(listed[p] == text);
            } else {
                assert(added.contains(text));
                let p = choose|p: int| 0 <= p < added.len() && added[p] == text;
                assert(listed[before.len() + p] == text);
            }
        }
    }
}

/// The texts that the predicates `conditions` on `records` read as numbers.
pub fn numeric_texts(records: &Records, conditions: &WhereCondition) -> (texts: Vec<String>)
    requires
        forall|k: int| 0 <= k < conditions@.len() ==> (#[trigger] conditions@[k])@.len() >= 3,
    ensures
        texts.deep_view() == texts_read(records.deep_view(), conditions.deep_view()),
        forall|text: Text|
            texts.deep_view().contains(text) <==> #[trigger] consulted(
                records.deep_view(),
                conditions.deep_view(),
                text,
            ),
{
    let mut texts: Vec<String> = Vec::new();
    let ghost table = records.deep_view();
    let ghost all = conditions.deep_view();
    let n = records.len();
    let m = conditions.len();
    let mut k: usize = 0;
    assert(all.take(0) =~= Seq::<Row>::empty());
    assert(texts.deep_view() =~= Seq::<Text>::empty());
    while k < m
        invariant
            n == records@.len(),
            m == conditions@.len(),
            k <= m,
            table == records.deep_view(),
            all == conditions.deep_view(),
            forall|j: int| 0 <= j < conditions@.len() ==> (#[trigger] conditions@[j])@.len() >= 3,
            texts.deep_view() == texts_read(table, all.take(k as int)),
        decreases m - k,
    {
        let condition = &conditions[k];
        let ghost this = all[k as int];
        let ghost before = texts.deep_view();
        proof {
            assert(this == condition.deep_view());
            assert(this[0] == condition@[0]@ && this[1] == condition@[1]@ && this[2]
                == condition@[2]@);
            let next = all.take(k + 1);
            assert(next.drop_last() =~= all.take(k as int));
            assert(next.last() == this);
        }
        if n > 0 && compares_numbers(condition[1].as_str()) {
            let column = find(&records[0], condition[0].as_str());
            if column < records[0].len() {
                texts.push(condition[2].clone());
                let ghost rows = table.skip(1);
                let mut i: usize = 1;
                proof {
                    assert(rows.take(0) =~= Seq::<Row>::empty());
                    assert(texts.deep_view() =~= before + (seq![this[2]] + column_cells(
                        rows.take(0),
                        column as int,
                    )));
                }
                while i < n
                    invariant
                        n == records@.len(),
                        1 <= i <= n,
                        table == records.deep_view(),
                        rows == table.skip(1),
                        texts.deep_view() == before + (seq![this[2]] + column_cells(
                            rows.take(i - 1),
                            column as int,
                        )),
                    decreases n - i,
                {
                    let row = &records[i];
                    let ghost so_far = texts.deep_view();
                    proof {
                        let next = rows.take(i as int);
                        assert(next.drop_last() =~= rows.take(i - 1));
                        assert(next.last() == row.deep_view());
                    }
                    if column < row.len() {
                        texts.push(row[column].clone());
                        assert(texts.deep_view() =~= so_far.push(row.deep_view()[column as int]));
                        assert(texts.deep_view() =~= before + (seq![this[2]] + column_cells(
                            rows.take(i as int),
                            column as int,
                        )));
                    }
                    i = i + 1;
                }
                assert(rows.take(n - 1) =~= rows);
            } else {
                assert(texts.deep_view() =~= before + Seq::<Text>::empty());
            }
        } else {
            assert(texts.deep_view() =~= before + Seq::<Text>::empty());
        }
        k = k + 1;
    }
    proof {
        assert(all.take(m as int) =~= all);
        assert forall|text: Text|
            texts.deep_view().contains(text) <==> #[trigger] consulted(table, all, text) by {
            lemma_texts_read(table, all, text);
        }
    }
    texts
}

} // verus!
