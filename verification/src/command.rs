//! The commands of the plain table view.

use vstd::prelude::*;
use crate::text::{text_eq, Text};

verus! {

/// What to show of a table: all of it, its header, or the number of its data
/// rows.
#[derive(Debug, Clone, Copy, PartialEq, Eq)]
pub enum Command {
    All,
    Headers,
    Count,
}

/// The command that `word` names.
pub open spec fn command_of(word: Text) -> Option<Command> {
    if word == "all"@ {
        Some(Command::All)
    } else if word == "headers"@ {
        Some(Command::Headers)
    } else if word == "count"@ {
        Some(Command::Count)
    } else {
        None
    }
}

/// The command that `word` names.
pub fn parse_command(word: &str) -> (command: Option<Command>)
    ensures
        command == command_of(word@),
{
    if text_eq(word, "all") {
        Some(Command::All)
    } else if text_eq(word, "headers") {
        Some(Command::Headers)
    } else if text_eq(word, "count") {
        Some(Command::Count)
    } else {
        None
    }
}

} // verus!
