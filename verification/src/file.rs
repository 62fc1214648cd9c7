//! The file that the plain table view reads.

use vstd::prelude::*;
use crate::entity::record::Records;
use crate::infra::file::{parse_line, table_of, cells_of};

verus! {

/// Reads the table of one file.
pub struct CSVReader {
    file_path: String,
}

impl CSVReader {
    pub fn new(file_path: String) -> (reader: Self)
        ensures
            reader.path() == file_path@,
    {
        CSVReader { file_path }
    }

    /// The path of the file.
    pub closed spec fn path(&self) -> Seq<char> {
        self.file_path@
    }

    /// The path of the file.
    pub fn file_path(&self) -> (path: &str)
        ensures
            path@ == self.path(),
    {
        self.file_path.as_str()
    }

    /// The table that the lines of the file write.
    pub fn parse(&self, lines: &Vec<String>) -> (records: Records)
        ensures
            records.deep_view() == table_of(lines.deep_view()),
    {
        let mut records: Vec<Vec<String>> = Vec::new();
        let n = lines.len();
        let mut i: usize = 0;
        while i < n
            invariant
                n == lines@.len(),
                i <= n,
                records@.len() == i,
                forall|k: int| 0 <= k < i ==> records@[k].deep_view() == cells_of(lines@[k]@),
            decreases n - i,
        {
            records.push(parse_line(lines[i].as_str()));
            i = i + 1;
        }
        assert(records.deep_view() =~= table_of(lines.deep_view()));
        records
    }
}

} // verus!
