//! The executor: from a query and a loaded table to the result.

use vstd::prelude::*;
use crate::entity::laws::{
    drawn_from, lemma_drawn_from_transitive, lemma_filter_all_drawn, lemma_limit_table_drawn,
    lemma_sort_table_drawn,
};
use crate::entity::numbers::{
    agree_for, consulted, lemma_filter_all_agree, numeric_texts, texts_read,
};
use crate::entity::query::{OrderView, Query, QueryLimit, QueryOrder, QueryWhereCondition};
use crate::entity::query_from::file_path_of;
use crate::entity::query_limit::limit_of;
use crate::entity::query_order::order_of;
use crate::entity::query_select::select_of;
use crate::entity::query_where::{lemma_predicates_are_triples, where_of};
use crate::entity::record::{
    filter_all, has_sort_cells, limit_table, sort_table, Record, Records,
};
use crate::infra::file::CSVReader;
use crate::readings::NumericReadings;
use crate::text::case::{lowercase, to_lowercase};
use crate::text::{find, lemma_position, position, text_eq, Row, Table, Text};

verus! {

/// Runs queries.
pub struct Executor {
    pub csv_reader: CSVReader,
}

/// The result of a query: the selected columns' names, and of each row that
/// is left the cells in those columns.
#[derive(Debug)]
pub struct Results {
    pub header: Vec<String>,
    pub rows: Vec<Vec<String>>,
}

/// What a result holds, as texts.
pub struct ResultsView {
    pub header: Row,
    pub rows: Seq<Row>,
}

impl View for Results {
    type V = ResultsView;

    open spec fn view(&self) -> ResultsView {
        ResultsView { header: self.header.deep_view(), rows: self.rows.deep_view() }
    }
}

/// The texts of `row` with their ASCII capitals made small.
pub open spec fn lowercase_row(row: Row) -> Row {
    row.map_values(|text: Text| lowercase(text))
}

/// The place in `header` of the first name that is `name` but for the case
/// of ASCII letters, or the length of `header` where there is none.
pub open spec fn column_of(header: Row, name: Text) -> int {
    position(lowercase_row(header), lowercase(name))
}

/// The places in `header` of the columns that `select` names, in the order
/// of `select`; a name that `header` does not hold adds none.
pub open spec fn named_columns(select: Row, header: Row) -> Seq<int>
    decreases select.len(),
{
    if select.len() == 0 {
        Seq::empty()
    } else {
        let before = named_columns(select.drop_last(), header);
        let column = column_of(header, select.last());
        if column < header.len() {
            before.push(column)
        } else {
            before
        }
    }
}

/// Whether `select` is the wildcard alone.
pub open spec fn selects_all(select: Row) -> bool {
    select.len() == 1 && select[0] == "*"@
}

/// The places in `header` of the selected columns: all of them, in the order
/// of the header, for the wildcard; else those of the named columns.
pub open spec fn resolved_columns(select: Row, header: Row) -> Seq<int> {
    if selects_all(select) {
        Seq::new(header.len(), |i: int| i)
    } else {
        named_columns(select, header)
    }
}

/// The cells of `row` at the places `columns`.
pub open spec fn projected(row: Row, columns: Seq<int>) -> Row {
    Seq::new(columns.len(), |k: int| row[columns[k]])
}

/// Every row of `rows` projected on `columns`.
pub open spec fn projected_rows(rows: Seq<Row>, columns: Seq<int>) -> Seq<Row> {
    Seq::new(rows.len(), |i: int| projected(rows[i], columns))
}

/// Whether every data row of `table` has at least as many cells as the
/// header.
pub open spec fn covers_header(table: Table) -> bool {
    forall|i: int| 1 <= i < table.len() ==> (#[trigger] table[i]).len() >= table[0].len()
}

/// `table` with the predicates of `tokens` applied, then their order, then
/// their limit.
pub open spec fn prepared(tokens: Row, table: Table, readings: Map<Text, i64>) -> Table {
    limit_table(
        sort_table(filter_all(table, where_of(tokens), readings), order_of(tokens)),
        limit_of(tokens) as nat,
    )
}

/// The result of the query `tokens` on `table`: empty for a table without a
/// header; else the selected columns of the rows that are left once the
/// predicates, the order and the limit have been applied, in that order.
pub open spec fn results_of(tokens: Row, table: Table, readings: Map<Text, i64>) -> ResultsView {
    if table.len() == 0 {
        ResultsView { header: Seq::empty(), rows: Seq::empty() }
    } else {
        let columns = resolved_columns(select_of(tokens), table[0]);
        ResultsView {
            header: projected(table[0], columns),
            rows: projected_rows(prepared(tokens, table, readings).skip(1), columns),
        }
    }
}

/// The places `columns` as integers.
pub open spec fn places(columns: Seq<usize>) -> Seq<int> {
    Seq::new(columns.len(), |k: int| columns[k] as int)
}

/// The message of each failure, and the result of a success, of running the
/// query `tokens` on what the row source gave: a query that names no file
/// fails as a syntax error, whatever was loaded; a failure of the row source
/// is handed on as it is; a loaded table gives its result.
pub open spec fn outcome_of(
    tokens: Row,
    loaded: Result<Table, Text>,
    readings: Map<Text, i64>,
) -> Result<ResultsView, Text> {
    if file_path_of(tokens) is None {
        Err("syntax error: FROM must specify a file path"@)
    } else {
        match loaded {
            Err(message) => Err(message),
            Ok(table) => Ok(results_of(tokens, table, readings)),
        }
    }
}

/// What was loaded, as texts.
pub open spec fn loaded_view(loaded: Result<Records, String>) -> Result<Table, Text> {
    match loaded {
        Ok(records) => Ok(records.deep_view()),
        Err(message) => Err(message@),
    }
}

/// What came out, as texts.
pub open spec fn outcome_view(outcome: Result<Results, String>) -> Result<ResultsView, Text> {
    match outcome {
        Ok(results) => Ok(results@),
        Err(message) => Err(message@),
    }
}

/// A table made of rows of a table whose rows cover the header has rows that
/// cover the header.
pub proof fn lemma_drawn_covers_header(out: Table, table: Table)
    requires
        drawn_from(out, table),
        covers_header(table),
    ensures
        covers_header(out),
{
    assert forall|i: int| 1 <= i < out.len() implies (#[trigger] out[i]).len() >= out[0].len() by {
        assert(table.skip(1).contains(out[i]));
        let j = choose|j: int| 0 <= j < table.skip(1).len() && table.skip(1)[j] == out[i];
        assert(table[j + 1] == out[i]);
    }
}

/// The table that a query's predicates, order and limit leave is made of rows
/// of the table that they were applied to.
pub proof fn lemma_prepared_drawn(tokens: Row, table: Table, readings: Map<Text, i64>)
    ensures
        drawn_from(prepared(tokens, table, readings), table),
{
    let filtered = filter_all(table, where_of(tokens), readings);
    let sorted = sort_table(filtered, order_of(tokens));
    let limited = limit_table(sorted, limit_of(tokens) as nat);
    lemma_filter_all_drawn(table, where_of(tokens), readings);
    lemma_sort_table_drawn(filtered, order_of(tokens));
    lemma_limit_table_drawn(sorted, limit_of(tokens) as nat);
    lemma_drawn_from_transitive(sorted, filtered, table);
    lemma_drawn_from_transitive(limited, sorted, table);
}

/// Rows that cover the header have a cell in every column that the header
/// names.
pub proof fn lemma_covered_has_sort_cells(table: Table, order: OrderView)
    requires
        covers_header(table),
    ensures
        has_sort_cells(table, order),
{
    if table.len() > 0 {
        lemma_position(table[0], order.column);
    }
}

/// Under the wildcard a row is projected on itself, as far as the header
/// goes.
pub proof fn lemma_wildcard_keeps_row(select: Row, header: Row, row: Row)
    requires
        selects_all(select),
        row.len() >= header.len(),
    ensures
        projected(row, resolved_columns(select, header)) == row.take(header.len() as int),
{
    assert(projected(row, resolved_columns(select, header)) =~= row.take(header.len() as int));
}

/// Selecting `*` returns every column in its place: the header of the result
/// is the header of the table, and its rows are the rows that the
/// predicates, the order and the limit leave, each as it is.
pub proof fn lemma_wildcard_keeps_columns(tokens: Row, table: Table, readings: Map<Text, i64>)
    requires
        selects_all(select_of(tokens)),
        table.len() > 0,
        forall|i: int| 0 <= i < table.len() ==> (#[trigger] table[i]).len() == table[0].len(),
    ensures
        results_of(tokens, table, readings).header == table[0],
        results_of(tokens, table, readings).rows == prepared(tokens, table, readings).skip(1),
{
    let select = select_of(tokens);
    let columns = resolved_columns(select, table[0]);
    let rows = prepared(tokens, table, readings).skip(1);
    lemma_wildcard_keeps_row(select, table[0], table[0]);
    assert(table[0].take(table[0].len() as int) =~= table[0]);
    lemma_prepared_drawn(tokens, table, readings);
    assert forall|i: int| 0 <= i < rows.len() implies projected(rows[i], columns) == rows[i] by {
        let row = prepared(tokens, table, readings)[i + 1];
        assert(rows[i] == row);
        assert(table.skip(1).contains(row));
        let j = choose|j: int| 0 <= j < table.skip(1).len() && table.skip(1)[j] == row;
        assert(table[j + 1] == row);
        lemma_wildcard_keeps_row(select, table[0], row);
        assert(row.take(table[0].len() as int) =~= row);
    }
    assert(projected_rows(rows, columns) =~= rows);
}

/// Readings that say the same of every text that the predicates of a query
/// read as a number give the same result.
pub proof fn lemma_results_agree(
    tokens: Row,
    table: Table,
    first: Map<Text, i64>,
    second: Map<Text, i64>,
)
    requires
        agree_for(table, where_of(tokens), first, second),
    ensures
        results_of(tokens, table, first) == results_of(tokens, table, second),
{
    lemma_filter_all_agree(table, where_of(tokens), first, second);
}

/// The texts that the predicates of `query` on `records` read as numbers:
/// the readings that `execute` is given need to speak of these, and of no
/// others.
pub fn texts_to_read(query: &Query, records: &Records) -> (texts: Vec<String>)
    ensures
        texts.deep_view() == texts_read(records.deep_view(), where_of(query@)),
        forall|text: Text|
            texts.deep_view().contains(text) <==> #[trigger] consulted(
                records.deep_view(),
                where_of(query@),
                text,
            ),
{
    let conditions = query.get_where();
    proof {
        lemma_predicates_are_triples(query@);
        assert forall|i: int| 0 <= i < conditions@.len() implies (#[trigger] conditions@[i])@.len()
            >= 3 by {
            assert(conditions.deep_view()[i].len() == conditions@[i]@.len());
        }
    }
    numeric_texts(records, &conditions)
}

/// Whether every data row of `records` has at least as many cells as the
/// header.
pub fn rows_cover_header(records: &Records) -> (r: bool)
    ensures
        r == covers_header(records.deep_view()),
{
    let n = records.len();
    if n == 0 {
        return true;
    }
    let width = records[0].len();
    let ghost table = records.deep_view();
    let mut i: usize = 1;
    while i < n
        invariant
            n == records@.len(),
            1 <= i <= n,
            table == records.deep_view(),
            width == table[0].len(),
            forall|k: int| 1 <= k < i ==> (#[trigger] table[k]).len() >= width,
        decreases n - i,
    {
        if records[i].len() < width {
            assert(table[i as int].len() < table[0].len());
            return false;
        }
        assert(table[i as int].len() == records@[i as int]@.len());
        i = i + 1;
    }
    true
}

/// A copy of `header` with the ASCII capitals made small.
fn lowered(header: &Vec<String>) -> (out: Vec<String>)
    ensures
        out.deep_view() == lowercase_row(header.deep_view()),
{
    let mut out: Vec<String> = Vec::new();
    let n = header.len();
    let mut i: usize = 0;
    while i < n
        invariant
            n == header@.len(),
            i <= n,
            out@.len() == i,
            forall|k: int| 0 <= k < i ==> out@[k]@ == lowercase(header@[k]@),
        decreases n - i,
    {
        out.push(to_lowercase(header[i].as_str()));
        i = i + 1;
    }
    assert(out.deep_view() =~= lowercase_row(header.deep_view()));
    out
}

/// The places in `header` of the selected columns.
pub fn resolve_columns(select: &Vec<String>, header: &Vec<String>) -> (columns: Vec<usize>)
    ensures
        places(columns@) == resolved_columns(select.deep_view(), header.deep_view()),
        forall|k: int| 0 <= k < columns@.len() ==> columns@[k] < header@.len(),
{
    let mut columns: Vec<usize> = Vec::new();
    let width = header.len();
    if select.len() == 1 && text_eq(select[0].as_str(), "*") {
        let mut i: usize = 0;
        while i < width
            invariant
                width == header@.len(),
                i <= width,
                columns@.len() == i,
                forall|k: int| 0 <= k < i ==> columns@[k] == k,
            decreases width - i,
        {
            columns.push(i);
            i = i + 1;
        }
        assert(places(columns@) =~= resolved_columns(select.deep_view(), header.deep_view()));
        return columns;
    }
    let names = lowered(header);
    let n = select.len();
    let mut i: usize = 0;
    assert(select.deep_view().take(0) =~= Seq::<Text>::empty());
    assert(places(columns@) =~= Seq::<int>::empty());
    while i < n
        invariant
            n == select@.len(),
            i <= n,
            width == header@.len(),
            names.deep_view() == lowercase_row(header.deep_view()),
            places(columns@) == named_columns(
                select.deep_view().take(i as int),
                header.deep_view(),
            ),
            forall|k: int| 0 <= k < columns@.len() ==> columns@[k] < width,
        decreases n - i,
    {
        proof {
            let next = select.deep_view().take(i + 1);
            assert(next.drop_last() =~= select.deep_view().take(i as int));
            assert(next.last() == select@[i as int]@);
        }
        let name = to_lowercase(select[i].as_str());
        let column = find(&names, name.as_str());
        if column < width {
            let ghost before = places(columns@);
            columns.push(column);
            assert(places(columns@) =~= before.push(column as int));
        }
        i = i + 1;
    }
    assert(select.deep_view().take(n as int) =~= select.deep_view());
    columns
}

/// The cells of `row` at the places `columns`.
pub fn project(row: &Vec<String>, columns: &Vec<usize>) -> (out: Vec<String>)
    requires
        forall|k: int| 0 <= k < columns@.len() ==> columns@[k] < row@.len(),
    ensures
        out.deep_view() == projected(row.deep_view(), places(columns@)),
{
    let mut out: Vec<String> = Vec::new();
    let n = columns.len();
    let mut k: usize = 0;
    while k < n
        invariant
            n == columns@.len(),
            k <= n,
            out@.len() == k,
            forall|j: int| 0 <= j < columns@.len() ==> columns@[j] < row@.len(),
            forall|j: int| 0 <= j < k ==> out@[j]@ == row@[columns@[j] as int]@,
        decreases n - k,
    {
        out.push(row[columns[k]].clone());
        k = k + 1;
    }
    assert(out.deep_view() =~= projected(row.deep_view(), places(columns@)));
    out
}

impl Executor {
    pub fn new(csv_reader: CSVReader) -> Self {
        Executor { csv_reader }
    }

    /// Runs `query` on what the row source gave for the file that the query
    /// names.
    ///
    /// `readings` holds the ranks of the cells and of the predicates' values
    /// that read as numbers.
    pub fn execute(
        &self,
        query: Query,
        loaded: Result<Records, String>,
        readings: &NumericReadings,
    ) -> (outcome: Result<Results, String>)
        requires
            loaded matches Ok(records) ==> covers_header(records.deep_view()),
        ensures
            outcome_view(outcome) == outcome_of(query@, loaded_view(loaded), readings@),
    {
        match query.get_file_path() {
            Err(message) => {
                return Err(message);
            },
            Ok(_) => {},
        }
        let records: Records = match loaded {
            Err(message) => {
                return Err(message);
            },
            Ok(records) => records,
        };
        if records.len() == 0 {
            let empty = Results { header: Vec::new(), rows: Vec::new() };
            assert(empty.header.deep_view() =~= Seq::<Text>::empty());
            assert(empty.rows.deep_view() =~= Seq::<Row>::empty());
            return Ok(empty);
        }
        let ghost table = records.deep_view();
        let select = query.get_select();
        let column_indices = resolve_columns(&select, &records[0]);

        let conditions = query.get_where();
        proof {
            lemma_predicates_are_triples(query@);
            assert forall|i: int| 0 <= i < conditions@.len() implies (
            #[trigger] conditions@[i])@.len() >= 3 by {
                assert(conditions.deep_view()[i].len() == conditions@[i]@.len());
            }
        }
        let filtered = Record::fileter_rows(&records, &conditions, readings);
        let order = query.get_order();
        proof {
            lemma_filter_all_drawn(table, where_of(query@), readings@);
            lemma_drawn_covers_header(filtered.deep_view(), table);
            lemma_covered_has_sort_cells(filtered.deep_view(), order@);
        }
        let sorted = Record::sort_rows(&filtered, &order);
        let limited = Record::limit_rows(&sorted, query.get_limit());
        proof {
            lemma_prepared_drawn(query@, table, readings@);
            lemma_drawn_covers_header(limited.deep_view(), table);
        }

        let header = project(&records[0], &column_indices);
        let mut rows: Vec<Vec<String>> = Vec::new();
        let n = limited.len();
        let mut i: usize = 1;
        while i < n
            invariant
                n == limited@.len(),
                1 <= i <= n,
                limited@.len() > 0,
                limited.deep_view()[0].len() == records@[0]@.len(),
                covers_header(limited.deep_view()),
                forall|k: int|
                    0 <= k < column_indices@.len() ==> column_indices@[k] < records@[0]@.len(),
                rows@.len() == i - 1,
                forall|k: int|
                    0 <= k < i - 1 ==> (#[trigger] rows@[k]).deep_view() == projected(
                        limited.deep_view()[k + 1],
                        places(column_indices@),
                    ),
            decreases n - i,
        {
            let row = &limited[i];
            assert(limited.deep_view()[i as int].len() == row@.len());
            rows.push(project(row, &column_indices));
            i = i + 1;
        }
        let results = Results { header, rows };
        proof {
            assert(results.rows.deep_view() =~= projected_rows(
                limited.deep_view().skip(1),
                places(column_indices@),
            ));
        }
        Ok(results)
    }
}

} // verus!
