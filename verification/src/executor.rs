//! The plain table view: all of a table, its header, or the number of its
//! data rows.

use vstd::prelude::*;
use crate::command::Command;
use crate::entity::record::Records;
use crate::file::CSVReader;
use crate::text::numeral::{decimal, to_decimal};
use crate::text::{clone_row, Row, Table, Text};

verus! {

/// Shows one file as one command says.
pub struct Executor {
    command: Command,
    csv_reader: CSVReader,
}

/// What is shown: a header, and rows under it.
#[derive(Debug, PartialEq)]
pub struct CliResult {
    pub header: Vec<String>,
    pub rows: Vec<Vec<String>>,
}

/// What a `CliResult` holds, as texts.
pub struct CliResultView {
    pub header: Row,
    pub rows: Seq<Row>,
}

impl View for CliResult {
    type V = CliResultView;

    open spec fn view(&self) -> CliResultView {
        CliResultView { header: self.header.deep_view(), rows: self.rows.deep_view() }
    }
}

/// All of `table`: its header, and its data rows.
pub open spec fn all_of(table: Table) -> CliResultView
    recommends
        table.len() > 0,
{
    CliResultView { header: table[0], rows: table.skip(1) }
}

/// The header of `table`, without rows.
pub open spec fn headers_of(table: Table) -> CliResultView
    recommends
        table.len() > 0,
{
    CliResultView { header: table[0], rows: Seq::empty() }
}

/// The number of data rows of `table`, in decimal digits, under the header
/// `count`.
pub open spec fn count_of(table: Table) -> CliResultView {
    CliResultView {
        header: seq!["count"@],
        rows: seq![seq![decimal(if table.len() > 0 {
            (table.len() - 1) as nat
        } else {
            0
        })]],
    }
}

/// What `command` shows of `table`.
pub open spec fn shown(command: Command, table: Table) -> CliResultView {
    match command {
        Command::All => all_of(table),
        Command::Headers => headers_of(table),
        Command::Count => count_of(table),
    }
}

/// What `command` comes to, given what reading the file gave: a failure to
/// read is handed on as it is.
pub open spec fn run_outcome(command: Command, loaded: Result<Table, Text>) -> Result<
    CliResultView,
    Text,
> {
    match loaded {
        Err(message) => Err(message),
        Ok(table) => Ok(shown(command, table)),
    }
}

/// What was read, as texts.
pub open spec fn loaded_view(loaded: Result<Records, String>) -> Result<Table, Text> {
    match loaded {
        Ok(records) => Ok(records.deep_view()),
        Err(message) => Err(message@),
    }
}

/// What came out, as texts.
pub open spec fn outcome_view(outcome: Result<CliResult, String>) -> Result<CliResultView, Text> {
    match outcome {
        Ok(result) => Ok(result@),
        Err(message) => Err(message@),
    }
}

/// Whether `loaded`, where it is a table, has a header.
pub open spec fn has_header(loaded: Result<Records, String>) -> bool {
    loaded matches Ok(records) ==> records@.len() > 0
}

impl Executor {
    pub fn new(command: Command, file_path: String) -> (executor: Self)
        ensures
            executor.command() == command,
            executor.path() == file_path@,
    {
        let csv_reader = CSVReader::new(file_path);
        Executor { command, csv_reader }
    }

    /// The command.
    pub closed spec fn command(&self) -> Command {
        self.command
    }

    /// The path of the file.
    pub closed spec fn path(&self) -> Seq<char> {
        self.csv_reader.path()
    }

    /// The path of the file.
    pub fn file_path(&self) -> (path: &str)
        ensures
            path@ == self.path(),
    {
        self.csv_reader.file_path()
    }

    /// The table that the lines of the file write.
    pub fn parse(&self, lines: &Vec<String>) -> (records: Records)
        ensures
            records.deep_view() == crate::infra::file::table_of(lines.deep_view()),
    {
        self.csv_reader.parse(lines)
    }

    /// What the command shows of what reading the file gave.
    pub fn run(&self, loaded: Result<Records, String>) -> (outcome: Result<CliResult, String>)
        requires
            self.command() != Command::Count ==> has_header(loaded),
        ensures
            outcome_view(outcome) == run_outcome(self.command(), loaded_view(loaded)),
    {
        match self.command {
            Command::All => self.all(loaded),
            Command::Headers => self.headers(loaded),
            Command::Count => self.count(loaded),
        }
    }

    /// All of what reading the file gave.
    pub fn all(&self, loaded: Result<Records, String>) -> (outcome: Result<CliResult, String>)
        requires
            has_header(loaded),
        ensures
            outcome_view(outcome) == run_outcome(Command::All, loaded_view(loaded)),
    {
        let read_csv = match loaded {
            Err(message) => {
                return Err(message);
            },
            Ok(records) => records,
        };
        let header = clone_row(&read_csv[0]);
        let mut rows: Vec<Vec<String>> = Vec::new();
        let n = read_csv.len();
        let mut i: usize = 1;
        while i < n
            invariant
                n == read_csv@.len(),
                1 <= i <= n,
                rows@.len() == i - 1,
                forall|k: int|
                    0 <= k < i - 1 ==> rows@[k].deep_view() == read_csv@[k + 1].deep_view(),
            decreases n - i,
        {
            rows.push(clone_row(&read_csv[i]));
            i = i + 1;
        }
        assert(rows.deep_view() =~= read_csv.deep_view().skip(1));
        Ok(CliResult { header, rows })
    }

    /// The header of what reading the file gave.
    pub fn headers(&self, loaded: Result<Records, String>) -> (outcome: Result<CliResult, String>)
        requires
            has_header(loaded),
        ensures
            outcome_view(outcome) == run_outcome(Command::Headers, loaded_view(loaded)),
    {
        let read_csv = match loaded {
            Err(message) => {
                return Err(message);
            },
            Ok(records) => records,
        };
        let header = clone_row(&read_csv[0]);
        let rows: Vec<Vec<String>> = Vec::new();
        assert(rows.deep_view() =~= Seq::<Row>::empty());
        Ok(CliResult { header, rows })
    }

    /// The number of data rows of what reading the file gave.
    pub fn count(&self, loaded: Result<Records, String>) -> (outcome: Result<CliResult, String>)
        ensures
            outcome_view(outcome) == run_outcome(Command::Count, loaded_view(loaded)),
    {
        let read_csv = match loaded {
            Err(message) => {
                return Err(message);
            },
            Ok(records) => records,
        };
        let n = read_csv.len();
        let data_rows: usize = if n > 0 {
            n - 1
        } else {
            0
        };
        let mut header: Vec<String> = Vec::new();
        header.push("count".to_owned());
        let mut row: Vec<String> = Vec::new();
        row.push(to_decimal(data_rows));
        let mut rows: Vec<Vec<String>> = Vec::new();
        rows.push(row);
        let result = CliResult { header, rows };
        proof {
            assert(result.header.deep_view() =~= seq!["count"@]);
            assert(result.rows.deep_view()[0] =~= seq![decimal(data_rows as nat)]);
            assert(result.rows.deep_view() =~= seq![seq![decimal(data_rows as nat)]]);
        }
        Ok(result)
    }
}

} // verus!
