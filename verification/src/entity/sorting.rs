//! Sorting rows by the cell in one column.

use vstd::prelude::*;
use crate::text::order::{
    lemma_text_le_total, lemma_text_le_transitive, text_at_most, text_le,
};
use crate::text::{Row, Text};

verus! {

/// Whether a row with the key `a` may stand before a row with the key `b`:
/// `a` is at most `b`, or, descending, `b` is at most `a`.
pub open spec fn in_order(a: Text, b: Text, descending: bool) -> bool {
    if descending {
        text_le(b, a)
    } else {
        text_le(a, b)
    }
}

/// `sorted` with `row` put behind the last row that may stand before it.
pub open spec fn insert_row(sorted: Seq<Row>, row: Row, column: int, descending: bool) -> Seq<Row>
    decreases sorted.len(),
{
    if sorted.len() == 0 {
        seq![row]
    } else if in_order(sorted.last()[column], row[column], descending) {
        sorted.push(row)
    } else {
        insert_row(sorted.drop_last(), row, column, descending).push(sorted.last())
    }
}

/// `rows` sorted by the cell in `column`, rows with the same cell in the
/// order in which they came.
pub open spec fn sorted_rows(rows: Seq<Row>, column: int, descending: bool) -> Seq<Row>
    decreases rows.len(),
{
    if rows.len() == 0 {
        rows
    } else {
        insert_row(
            sorted_rows(rows.drop_last(), column, descending),
            rows.last(),
            column,
            descending,
        )
    }
}

/// Two runs of rows merged into one: of the last rows of the two, the one
/// of `a` goes last where the one of `b` may not stand behind it, and the one
/// of `b` otherwise.
pub open spec fn merged(a: Seq<Row>, b: Seq<Row>, column: int, descending: bool) -> Seq<Row>
    decreases a.len() + b.len(),
{
    if a.len() == 0 {
        b
    } else if b.len() == 0 {
        a
    } else if in_order(a.last()[column], b.last()[column], descending) {
        merged(a, b.drop_last(), column, descending).push(b.last())
    } else {
        merged(a.drop_last(), b, column, descending).push(a.last())
    }
}

/// Of two keys one may stand before the other.
pub proof fn lemma_in_order_total(a: Text, b: Text, descending: bool)
    ensures
        in_order(a, b, descending) || in_order(b, a, descending),
{
    lemma_text_le_total(a, b);
}

/// `in_order` is transitive.
pub proof fn lemma_in_order_transitive(a: Text, b: Text, c: Text, descending: bool)
    requires
        in_order(a, b, descending),
        in_order(b, c, descending),
    ensures
        in_order(a, c, descending),
{
    if descending {
        lemma_text_le_transitive(c, b, a);
    } else {
        lemma_text_le_transitive(a, b, c);
    }
}

/// A row goes into a merged run where it goes into the second of the two
/// runs.
pub proof fn lemma_insert_into_merged(
    a: Seq<Row>,
    b: Seq<Row>,
    row: Row,
    column: int,
    descending: bool,
)
    ensures
        insert_row(merged(a, b, column, descending), row, column, descending) == merged(
            a,
            insert_row(b, row, column, descending),
            column,
            descending,
        ),
    decreases a.len() + b.len(),
{
    let key = row[column];
    let whole = merged(a, b, column, descending);
    let grown = insert_row(b, row, column, descending);
    if a.len() == 0 {
    } else if b.len() == 0 {
        assert(grown.drop_last() =~= b);
        if !in_order(a.last()[column], key, descending) {
            lemma_insert_into_merged(a.drop_last(), b, row, column, descending);
            assert(insert_row(whole, row, column, descending) == insert_row(
                a.drop_last(),
                row,
                column,
                descending,
            ).push(a.last()));
        }
    } else if in_order(a.last()[column], b.last()[column], descending) {
        assert(whole.drop_last() =~= merged(a, b.drop_last(), column, descending));
        if in_order(b.last()[column], key, descending) {
            lemma_in_order_transitive(a.last()[column], b.last()[column], key, descending);
            assert(grown.drop_last() =~= b);
        } else {
            let shorter = b.drop_last();
            lemma_insert_into_merged(a, shorter, row, column, descending);
            assert(grown.drop_last() =~= insert_row(shorter, row, column, descending));
        }
    } else {
        lemma_in_order_total(a.last()[column], b.last()[column], descending);
        assert(whole.drop_last() =~= merged(a.drop_last(), b, column, descending));
        if in_order(a.last()[column], key, descending) {
            lemma_in_order_transitive(b.last()[column], a.last()[column], key, descending);
            assert(grown.drop_last() =~= b);
        } else {
            lemma_insert_into_merged(a.drop_last(), b, row, column, descending);
        }
    }
}

/// Two sorted runs merge into the sorted whole.
pub proof fn lemma_merged_sorted(x: Seq<Row>, y: Seq<Row>, column: int, descending: bool)
    ensures
        merged(
            sorted_rows(x, column, descending),
            sorted_rows(y, column, descending),
            column,
            descending,
        ) == sorted_rows(x + y, column, descending),
    decreases y.len(),
{
    if y.len() == 0 {
        assert(x + y =~= x);
    } else {
        let shorter = y.drop_last();
        lemma_merged_sorted(x, shorter, column, descending);
        lemma_insert_into_merged(
            sorted_rows(x, column, descending),
            sorted_rows(shorter, column, descending),
            y.last(),
            column,
            descending,
        );
        assert((x + y).drop_last() =~= x + shorter);
        assert((x + y).last() == y.last());
    }
}

/// Whether the key `a` may stand before the key `b`.
fn keys_in_order(a: &str, b: &str, descending: bool) -> (r: bool)
    ensures
        r == in_order(a@, b@, descending),
{
    if descending {
        text_at_most(b, a)
    } else {
        text_at_most(a, b)
    }
}

/// Whether every row of `rows` has a cell in `column`.
pub open spec fn have_cell(rows: Seq<Vec<String>>, column: int) -> bool {
    forall|k: int| 0 <= k < rows.len() ==> column < (#[trigger] rows[k])@.len()
}

/// Takes the last row off `from` and puts it behind `onto`.
fn move_last(from: &mut Vec<Vec<String>>, onto: &mut Vec<Vec<String>>)
    requires
        old(from)@.len() > 0,
    ensures
        final(from)@ == old(from)@.drop_last(),
        final(onto)@ == old(onto)@.push(old(from)@.last()),
        final(from).deep_view() == old(from).deep_view().drop_last(),
        final(onto).deep_view() == old(onto).deep_view().push(old(from).deep_view().last()),
{
    match from.pop() {
        Some(row) => {
            onto.push(row);
        },
        None => {},
    }
    assert(from@ =~= old(from)@.drop_last());
    assert(from.deep_view() =~= old(from).deep_view().drop_last());
    assert(onto.deep_view() =~= old(onto).deep_view().push(old(from).deep_view().last()));
}

/// Merges two runs of rows into one.
fn merge(a: Vec<Vec<String>>, b: Vec<Vec<String>>, column: usize, descending: bool) -> (out: Vec<
    Vec<String>,
>)
    requires
        have_cell(a@, column as int),
        have_cell(b@, column as int),
    ensures
        out.deep_view() == merged(a.deep_view(), b.deep_view(), column as int, descending),
        have_cell(out@, column as int),
{
    let mut a = a;
    let mut b = b;
    let ghost whole = merged(a.deep_view(), b.deep_view(), column as int, descending);
    // The rows from the last to the first, as they are taken off the runs.
    let mut taken: Vec<Vec<String>> = Vec::new();
    assert(taken.deep_view().reverse() =~= Seq::<Row>::empty());
    while a.len() > 0 && b.len() > 0
        invariant
            have_cell(a@, column as int),
            have_cell(b@, column as int),
            have_cell(taken@, column as int),
            whole == merged(a.deep_view(), b.deep_view(), column as int, descending)
                + taken.deep_view().reverse(),
        decreases a@.len() + b@.len(),
    {
        let ghost rest = taken.deep_view();
        let ghost last_a = a.deep_view().last();
        let ghost last_b = b.deep_view().last();
        assert(last_a == a@[a@.len() - 1].deep_view());
        assert(last_b == b@[b@.len() - 1].deep_view());
        assert(last_a[column as int] == a@[a@.len() - 1]@[column as int]@);
        assert(last_b[column as int] == b@[b@.len() - 1]@[column as int]@);
        if keys_in_order(
            a[a.len() - 1][column].as_str(),
            b[b.len() - 1][column].as_str(),
            descending,
        ) {
            move_last(&mut b, &mut taken);
            assert(taken.deep_view().reverse() =~= seq![last_b] + rest.reverse());
        } else {
            move_last(&mut a, &mut taken);
            assert(taken.deep_view().reverse() =~= seq![last_a] + rest.reverse());
        }
    }
    while a.len() > 0
        invariant
            have_cell(a@, column as int),
            have_cell(taken@, column as int),
            a@.len() > 0 ==> b@.len() == 0,
            whole == merged(a.deep_view(), b.deep_view(), column as int, descending)
                + taken.deep_view().reverse(),
        decreases a@.len(),
    {
        let ghost rest = taken.deep_view();
        let ghost last_a = a.deep_view().last();
        let ghost before = a.deep_view();
        move_last(&mut a, &mut taken);
        assert(taken.deep_view().reverse() =~= seq![last_a] + rest.reverse());
        assert(before =~= a.deep_view().push(last_a));
        assert(b.deep_view().len() == 0);
    }
    while b.len() > 0
        invariant
            have_cell(b@, column as int),
            have_cell(taken@, column as int),
            a@.len() == 0,
            whole == merged(a.deep_view(), b.deep_view(), column as int, descending)
                + taken.deep_view().reverse(),
        decreases b@.len(),
    {
        let ghost rest = taken.deep_view();
        let ghost last_b = b.deep_view().last();
        let ghost before = b.deep_view();
        move_last(&mut b, &mut taken);
        assert(taken.deep_view().reverse() =~= seq![last_b] + rest.reverse());
        assert(before =~= b.deep_view().push(last_b));
        assert(a.deep_view().len() == 0);
    }
    assert(whole =~= taken.deep_view().reverse());
    let mut out: Vec<Vec<String>> = Vec::new();
    let ghost all = taken.deep_view();
    while taken.len() > 0
        invariant
            have_cell(taken@, column as int),
            have_cell(out@, column as int),
            all.reverse() == out.deep_view() + taken.deep_view().reverse(),
        decreases taken@.len(),
    {
        let ghost rest = taken.deep_view();
        let ghost done = out.deep_view();
        move_last(&mut taken, &mut out);
        assert(rest.reverse() =~= seq![rest.last()] + taken.deep_view().reverse());
        assert(done + rest.reverse() =~= out.deep_view() + taken.deep_view().reverse());
    }
    assert(all.reverse() =~= out.deep_view());
    out
}

/// Sorts `rows` by the cell in `column`; rows with the same cell keep their
/// order.
pub fn sort_by_column(rows: Vec<Vec<String>>, column: usize, descending: bool) -> (out: Vec<
    Vec<String>,
>)
    requires
        have_cell(rows@, column as int),
    ensures
        out.deep_view() == sorted_rows(rows.deep_view(), column as int, descending),
        have_cell(out@, column as int),
    decreases rows@.len(),
{
    let n = rows.len();
    if n <= 1 {
        proof {
            let view = rows.deep_view();
            if n == 1 {
                assert(view.drop_last() =~= Seq::<Row>::empty());
                assert(sorted_rows(view.drop_last(), column as int, descending)
                    =~= Seq::<Row>::empty());
                assert(seq![view.last()] =~= view);
            }
        }
        return rows;
    }
    let ghost whole = rows.deep_view();
    let mut front = rows;
    let back = front.split_off(n / 2);
    proof {
        assert(front.deep_view() =~= whole.subrange(0, (n / 2) as int));
        assert(back.deep_view() =~= whole.subrange((n / 2) as int, n as int));
        assert(front.deep_view() + back.deep_view() =~= whole);
        lemma_merged_sorted(front.deep_view(), back.deep_view(), column as int, descending);
    }
    let a = sort_by_column(front, column, descending);
    let b = sort_by_column(back, column, descending);
    merge(a, b, column, descending)
}

} // verus!
