//! The `FROM` clause.

use vstd::prelude::*;
use crate::entity::query::{Query, QueryFrom};
use crate::text::{find, position, Row, Text};

verus! {

/// The path that `tokens` name: the token behind the first `FROM`, where
/// there is a `FROM` and a token behind it.
pub open spec fn file_path_of(tokens: Row) -> Option<Text> {
    let from = position(tokens, "FROM"@);
    if from + 1 < tokens.len() {
        Some(tokens[from + 1])
    } else {
        None
    }
}

impl QueryFrom for Query {
    /// The path of the file that the query names, or a syntax error where it
    /// names none.
    fn get_file_path(&self) -> (r: Result<String, String>)
        ensures
            match r {
                Ok(path) => file_path_of(self@) == Some(path@),
                Err(message) => file_path_of(self@) is None
                    && message@ == "syntax error: FROM must specify a file path"@,
            },
    {
        let from = find(&self.clauses, "FROM");
        if from < self.clauses.len() && from + 1 < self.clauses.len() {
            Ok(self.clauses[from + 1].clone())
        } else {
            Err("syntax error: FROM must specify a file path".to_owned())
        }
    }
}

impl Query {
    /// The path of the file that the query names, or a syntax error where it
    /// names none.
    pub fn get_file_path(&self) -> (r: Result<String, String>)
        ensures
            match r {
                Ok(path) => file_path_of(self@) == Some(path@),
                Err(message) => file_path_of(self@) is None
                    && message@ == "syntax error: FROM must specify a file path"@,
            },
    {
        QueryFrom::get_file_path(self)
    }
}

} // verus!
