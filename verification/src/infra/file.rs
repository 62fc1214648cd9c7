//! Tables in delimited text: one row to the line, the cells of a row set
//! apart by commas.

use vstd::prelude::*;
use crate::entity::record::Records;
use crate::text::space::{trim, trimmed};
use crate::text::{joined, Row, Table, Text};

verus! {

/// `line` cut at its commas: one field more than there are commas, in order.
pub open spec fn fields_of(line: Text) -> Seq<Text>
    decreases line.len(),
{
    if line.len() == 0 {
        seq![Seq::empty()]
    } else {
        let before = fields_of(line.drop_last());
        if line.last() == ',' {
            before.push(Seq::empty())
        } else {
            before.drop_last().push(before.last().push(line.last()))
        }
    }
}

/// The cells of `line`: its fields, each without the white space around it.
pub open spec fn cells_of(line: Text) -> Row {
    fields_of(line).map_values(|field: Text| trimmed(field))
}

/// The table that `lines` write: the cells of each line, in order.
pub open spec fn table_of(lines: Seq<Text>) -> Table {
    lines.map_values(|line: Text| cells_of(line))
}

/// A line has at least one field.
pub proof fn lemma_fields_not_empty(line: Text)
    ensures
        fields_of(line).len() > 0,
    decreases line.len(),
{
    if line.len() > 0 {
        lemma_fields_not_empty(line.drop_last());
    }
}

/// Whether no character of `text` is a comma.
pub open spec fn has_no_comma(text: Text) -> bool {
    forall|i: int| 0 <= i < text.len() ==> #[trigger] text[i] != ','
}

/// No field of a line holds a comma.
pub proof fn lemma_fields_hold_no_comma(line: Text)
    ensures
        forall|k: int| 0 <= k < fields_of(line).len() ==> has_no_comma(#[trigger] fields_of(line)[k]),
    decreases line.len(),
{
    if line.len() > 0 {
        let before = fields_of(line.drop_last());
        lemma_fields_hold_no_comma(line.drop_last());
        lemma_fields_not_empty(line.drop_last());
        assert forall|k: int| 0 <= k < fields_of(line).len() implies has_no_comma(
            #[trigger] fields_of(line)[k],
        ) by {
            if k < before.len() - 1 {
                assert(fields_of(line)[k] == before[k]);
            } else if line.last() != ',' {
                assert(has_no_comma(before[before.len() - 1]));
            } else if k == before.len() - 1 {
                assert(fields_of(line)[k] == before[k]);
            }
        }
    }
}

/// The fields of a line, with commas between them, are the line.
pub proof fn lemma_fields_join_to_line(line: Text)
    ensures
        joined(fields_of(line), ","@) == line,
    decreases line.len(),
{
    reveal_strlit(",");
    if line.len() == 0 {
        assert(joined(fields_of(line), ","@) =~= line);
    } else {
        let shorter = line.drop_last();
        let before = fields_of(shorter);
        lemma_fields_join_to_line(shorter);
        lemma_fields_not_empty(shorter);
        assert(shorter.push(line.last()) =~= line);
        if line.last() == ',' {
            let after = before.push(Seq::empty());
            assert(after.drop_last() =~= before);
            assert(joined(after, ","@) =~= shorter.push(','));
        } else {
            let grown = before.last().push(line.last());
            let after = before.drop_last().push(grown);
            assert(after.drop_last() =~= before.drop_last());
            if before.len() == 1 {
                assert(joined(after, ","@) =~= shorter.push(line.last()));
            } else {
                assert(joined(after, ","@) =~= (joined(before.drop_last(), ","@) + ","@
                    + before.last()).push(line.last()));
            }
        }
    }
}

/// The cells of `line`.
pub fn parse_line(line: &str) -> (cells: Vec<String>)
    ensures
        cells.deep_view() == cells_of(line@),
{
    let mut cells: Vec<String> = Vec::new();
    let mut field: Vec<char> = Vec::new();
    let ghost mut closed: Seq<Text> = Seq::empty();
    assert(cells.deep_view() =~= closed.map_values(|field: Text| trimmed(field)));
    for c in it: line.chars()
        invariant
            it.seq() == line@,
            fields_of(line@.take(it.index())) == closed.push(field@),
            cells.deep_view() == closed.map_values(|field: Text| trimmed(field)),
    {
        proof {
            let next = line@.take(it.index() + 1);
            assert(next.drop_last() =~= line@.take(it.index()));
            assert(next.last() == c);
            assert(closed.push(field@).drop_last() =~= closed);
        }
        if c == ',' {
            let ghost before = cells.deep_view();
            cells.push(trim(&field));
            proof {
                assert(cells.deep_view() =~= before.push(trimmed(field@)));
                closed = closed.push(field@);
                assert(cells.deep_view() =~= closed.map_values(|field: Text| trimmed(field)));
            }
            field = Vec::new();
        } else {
            field.push(c);
        }
    }
    assert(line@.take(line@.len() as int) =~= line@);
    let ghost before = cells.deep_view();
    cells.push(trim(&field));
    assert(cells.deep_view() =~= before.push(trimmed(field@)));
    assert(cells.deep_view() =~= closed.push(field@).map_values(|field: Text| trimmed(field)));
    cells
}

/// Reads tables from delimited text.
pub struct CSVReader;

impl CSVReader {
    pub fn new() -> Self {
        CSVReader
    }

    /// The table that `lines` write.
    pub fn parse(&self, lines: &Vec<String>) -> (records: Records)
        ensures
            records.deep_view() == table_of(lines.deep_view()),
    {
        let mut records: Vec<Vec<String>> = Vec::new();
        let n = lines.len();
        let mut i: usize = 0;
        while i < n
            invariant
                n == lines@.len(),
                i <= n,
                records@.len() == i,
                forall|k: int| 0 <= k < i ==> records@[k].deep_view() == cells_of(lines@[k]@),
            decreases n - i,
        {
            records.push(parse_line(lines[i].as_str()));
            i = i + 1;
        }
        assert(records.deep_view() =~= table_of(lines.deep_view()));
        records
    }
}

} // verus!
