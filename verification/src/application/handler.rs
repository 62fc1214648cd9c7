//! The handler: from the arguments of an invocation to the lines to print.

use vstd::prelude::*;
use crate::application::executor::{
    covers_header, loaded_view, outcome_of, Executor, Results, ResultsView,
};
use crate::entity::query::{starts_with_select, tokens_of, Query};
use crate::entity::record::Records;
use crate::infra::file::CSVReader;
use crate::readings::NumericReadings;
use crate::text::{dashes, dashes_for, join, joined, Row, Table, Text};

verus! {

/// Takes an invocation from its arguments to its output.
pub struct Handler {
    executor: Executor,
}

/// What is wrong with the arguments `args`, the first of which is the name
/// under which the program runs: a query is missing or empty, or something
/// follows the query.
pub open spec fn args_error(args: Seq<Text>) -> Option<Text> {
    if args.len() < 2 || args[1].len() == 0 {
        Some("not enough args"@)
    } else if args.len() >= 3 {
        Some("too many args"@)
    } else {
        None
    }
}

/// The hyphens under each name of `header`.
pub open spec fn underlines(header: Row) -> Row {
    header.map_values(|name: Text| dashes(name))
}

/// The lines that show `results`: the header, a line of hyphens, as many
/// under each name as the name has characters, and the rows; the cells of a
/// line are set apart by tabs.
pub open spec fn display_of(results: ResultsView) -> Seq<Text> {
    seq![joined(results.header, "\t"@), joined(underlines(results.header), "\t"@)]
        + results.rows.map_values(|row: Row| joined(row, "\t"@))
}

/// What an invocation with the arguments `args` comes to, given what the row
/// source gave: the lines to print, or the message of the failure. The
/// arguments are looked at first, then the query, then what was loaded.
pub open spec fn run_outcome(
    args: Seq<Text>,
    loaded: Result<Table, Text>,
    readings: Map<Text, i64>,
) -> Result<Seq<Text>, Text> {
    match args_error(args) {
        Some(message) => Err(message),
        None => {
            let tokens = tokens_of(args[1]);
            if !starts_with_select(tokens) {
                Err("syntax error: query must start with SELECT"@)
            } else {
                match outcome_of(tokens, loaded, readings) {
                    Err(message) => Err(message),
                    Ok(results) => Ok(display_of(results)),
                }
            }
        },
    }
}

/// What came out, as texts.
pub open spec fn lines_view(outcome: Result<Vec<String>, String>) -> Result<Seq<Text>, Text> {
    match outcome {
        Ok(lines) => Ok(lines.deep_view()),
        Err(message) => Err(message@),
    }
}

impl Handler {
    pub fn new() -> Self {
        let csv_reader = CSVReader::new();
        let executor = Executor::new(csv_reader);
        Handler { executor }
    }

    /// Runs the query that `args` hold on what the row source gave for the
    /// file that the query names, and returns the lines to print.
    ///
    /// `readings` holds the ranks of the cells and of the predicates' values
    /// that read as numbers.
    pub fn run(
        &self,
        args: Vec<String>,
        loaded: Result<Records, String>,
        readings: &NumericReadings,
    ) -> (outcome: Result<Vec<String>, String>)
        requires
            loaded matches Ok(records) ==> covers_header(records.deep_view()),
        ensures
            lines_view(outcome) == run_outcome(args.deep_view(), loaded_view(loaded), readings@),
    {
        match self.validate(&args) {
            Err(message) => {
                return Err(message);
            },
            Ok(_) => {},
        }
        let query = Query::new(args[1].as_str());
        match query.validate() {
            Err(message) => {
                return Err(message);
            },
            Ok(_) => {},
        }
        match self.executor.execute(query, loaded, readings) {
            Err(message) => Err(message),
            Ok(result) => Ok(self.display_results(result)),
        }
    }

    /// Accepts arguments that hold one query, and no others.
    pub fn validate(&self, args: &Vec<String>) -> (r: Result<(), String>)
        ensures
            match r {
                Ok(_) => args_error(args.deep_view()) is None,
                Err(message) => args_error(args.deep_view()) == Some(message@),
            },
    {
        if args.len() < 2 {
            return Err("not enough args".to_owned());
        }
        if args[1].as_str().is_empty() {
            return Err("not enough args".to_owned());
        }
        if args.len() >= 3 {
            return Err("too many args".to_owned());
        }
        Ok(())
    }

    /// The lines that show `result`.
    pub fn display_results(&self, result: Results) -> (lines: Vec<String>)
        ensures
            lines.deep_view() == display_of(result@),
    {
        let mut lines: Vec<String> = Vec::new();
        lines.push(join(&result.header, "\t"));

        let mut separators: Vec<String> = Vec::new();
        let width = result.header.len();
        let mut k: usize = 0;
        while k < width
            invariant
                width == result.header@.len(),
                k <= width,
                separators@.len() == k,
                forall|j: int| 0 <= j < k ==> separators@[j]@ == dashes(result.header@[j]@),
            decreases width - k,
        {
            separators.push(dashes_for(result.header[k].as_str()));
            k = k + 1;
        }
        assert(separators.deep_view() =~= underlines(result.header.deep_view()));
        lines.push(join(&separators, "\t"));

        let n = result.rows.len();
        let mut i: usize = 0;
        while i < n
            invariant
                n == result.rows@.len(),
                i <= n,
                lines@.len() == i + 2,
                lines@[0]@ == joined(result.header.deep_view(), "\t"@),
                lines@[1]@ == joined(underlines(result.header.deep_view()), "\t"@),
                forall|j: int|
                    0 <= j < i ==> lines@[j + 2]@ == joined(result.rows@[j].deep_view(), "\t"@),
            decreases n - i,
        {
            lines.push(join(&result.rows[i], "\t"));
            i = i + 1;
        }
        assert(lines.deep_view() =~= display_of(result@));
        lines
    }
}

} // verus!
