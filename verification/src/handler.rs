//! The arguments of the plain table view, and the lines that it prints.

use vstd::prelude::*;
use vstd::string::StringExecFns;
use crate::command::{command_of, parse_command, Command};
use crate::executor::{CliResult, CliResultView};
use vstd::utf8::encode_utf8;
use crate::text::{join, joined, Row, Text};

verus! {

/// The arguments of an invocation: the path of a file, then a command.
#[derive(Debug)]
pub struct Handler {
    args: Vec<String>,
}

impl View for Handler {
    type V = Seq<Text>;

    closed spec fn view(&self) -> Seq<Text> {
        self.args.deep_view()
    }
}

/// The message for a word that names no command.
pub open spec fn unknown_command(word: Text) -> Text {
    "unkown command: "@ + word
}

/// What is wrong with the arguments `args`: the path is missing, the command
/// is missing, something follows the command, or the command is none.
pub open spec fn args_error(args: Seq<Text>) -> Option<Text> {
    if args.len() < 1 {
        Some("not enough args"@)
    } else if args.len() < 2 {
        Some("no command provided"@)
    } else if args.len() > 2 {
        Some("too many args"@)
    } else if command_of(args[1]) is None {
        Some(unknown_command(args[1]))
    } else {
        None
    }
}

/// The command that `args` name, or what is wrong with the second argument.
pub open spec fn command_or_error(args: Seq<Text>) -> Result<Command, Text> {
    if args.len() < 2 {
        Err("not enough args"@)
    } else {
        match command_of(args[1]) {
            Some(command) => Ok(command),
            None => Err(unknown_command(args[1])),
        }
    }
}

/// The path that `args` name, or what is wrong with the first argument.
pub open spec fn path_or_error(args: Seq<Text>) -> Result<Text, Text> {
    if args.len() < 1 {
        Err("not enough args"@)
    } else {
        Ok(args[0])
    }
}

/// Whether `args` ask for the header alone: they name the command `headers`,
/// or no command at all.
pub open spec fn asks_for_headers(args: Seq<Text>) -> bool {
    match command_or_error(args) {
        Ok(command) => command == Command::Headers,
        Err(_) => true,
    }
}

/// As many hyphens as the UTF-8 encoding of `name` has bytes.
pub open spec fn underline(name: Text) -> Text {
    Seq::new(encode_utf8(name).len(), |i: int| '-')
}

/// The hyphens under each name of `header`.
pub open spec fn underlines(header: Row) -> Row {
    header.map_values(|name: Text| underline(name))
}

/// As many hyphens as `name` has bytes.
pub fn underline_for(name: &str) -> (out: String)
    ensures
        out@ == underline(name@),
{
    let mut out = String::new();
    let n = name.as_bytes().len();
    let mut i: usize = 0;
    while i < n
        invariant
            i <= n,
            n == encode_utf8(name@).len(),
            out@ == Seq::new(i as nat, |k: int| '-'),
        decreases n - i,
    {
        out.append("-");
        proof {
            reveal_strlit("-");
            assert(out@ =~= Seq::new((i + 1) as nat, |k: int| '-'));
        }
        i = i + 1;
    }
    out
}

/// The lines that show `result`. Asked for the header alone, one line: the
/// names, set apart by a comma and a space. Otherwise the header, a line of
/// hyphens, as many under each name as the name has bytes, and the rows;
/// the cells of a line are set apart by tabs.
pub open spec fn display_of(args: Seq<Text>, result: CliResultView) -> Seq<Text> {
    if asks_for_headers(args) {
        seq![joined(result.header, ", "@)]
    } else {
        seq![joined(result.header, "\t"@), joined(underlines(result.header), "\t"@)]
            + result.rows.map_values(|row: Row| joined(row, "\t"@))
    }
}

/// What the arguments come to: the command and the path, or the message of
/// what is wrong with them.
pub open spec fn run_outcome(args: Seq<Text>) -> Result<(Command, Text), Text> {
    match args_error(args) {
        Some(message) => Err(message),
        None => Ok((command_of(args[1])->0, args[0])),
    }
}

impl Handler {
    pub fn new(args: Vec<String>) -> (handler: Handler)
        ensures
            handler@ == args.deep_view(),
    {
        Handler { args }
    }

    /// The command and the path of the file, where the arguments are in
    /// order.
    pub fn run(&self) -> (r: Result<(Command, String), String>)
        ensures
            match r {
                Ok((command, path)) => run_outcome(self@) == Ok::<(Command, Text), Text>(
                    (command, path@),
                ),
                Err(message) => run_outcome(self@) == Err::<(Command, Text), Text>(message@),
            },
    {
        match self.validate() {
            Err(message) => {
                return Err(message);
            },
            Ok(_) => {},
        }
        let file_path = match self.get_file_path() {
            Err(message) => {
                return Err(message);
            },
            Ok(path) => path,
        };
        let cmd = match self.get_command() {
            Err(message) => {
                return Err(message);
            },
            Ok(command) => command,
        };
        Ok((cmd, file_path))
    }

    /// Accepts arguments that are a path and a command, and no others.
    pub fn validate(&self) -> (r: Result<(), String>)
        ensures
            match r {
                Ok(_) => args_error(self@) is None,
                Err(message) => args_error(self@) == Some(message@),
            },
    {
        if self.args.len() < 1 {
            return Err("not enough args".to_owned());
        }
        if self.args.len() < 2 {
            return Err("no command provided".to_owned());
        }
        if self.args.len() > 2 {
            return Err("too many args".to_owned());
        }
        let cmd = &self.args[1];
        match parse_command(cmd.as_str()) {
            Some(_) => Ok(()),
            None => {
                let mut message = "unkown command: ".to_owned();
                message.append(cmd.as_str());
                Err(message)
            },
        }
    }

    /// The command that the second argument names.
    pub fn get_command(&self) -> (r: Result<Command, String>)
        ensures
            match r {
                Ok(command) => command_or_error(self@) == Ok::<Command, Text>(command),
                Err(message) => command_or_error(self@) == Err::<Command, Text>(message@),
            },
    {
        if self.args.len() < 2 {
            return Err("not enough args".to_owned());
        }
        let cmd = &self.args[1];
        match parse_command(cmd.as_str()) {
            Some(command) => Ok(command),
            None => {
                let mut message = "unkown command: ".to_owned();
                message.append(cmd.as_str());
                Err(message)
            },
        }
    }

    /// The path that the first argument names.
    pub fn get_file_path(&self) -> (r: Result<String, String>)
        ensures
            match r {
                Ok(path) => path_or_error(self@) == Ok::<Text, Text>(path@),
                Err(message) => path_or_error(self@) == Err::<Text, Text>(message@),
            },
    {
        if self.args.len() < 1 {
            return Err("not enough args".to_owned());
        }
        Ok(self.args[0].clone())
    }

    /// Whether the arguments ask for the header alone.
    pub fn is_command_headers(&self) -> (r: bool)
        ensures
            r == asks_for_headers(self@),
    {
        match self.get_command() {
            Ok(Command::Headers) => true,
            Ok(_) => false,
            Err(_) => true,
        }
    }

    /// The lines that show `cli_result`.
    pub fn display(&self, cli_result: CliResult) -> (lines: Vec<String>)
        ensures
            lines.deep_view() == display_of(self@, cli_result@),
    {
        let mut lines: Vec<String> = Vec::new();
        if self.is_command_headers() {
            lines.push(join(&cli_result.header, ", "));
            assert(lines.deep_view() =~= display_of(self@, cli_result@));
            return lines;
        }
        lines.push(join(&cli_result.header, "\t"));

        let mut separators: Vec<String> = Vec::new();
        let width = cli_result.header.len();
        let mut k: usize = 0;
        while k < width
            invariant
                width == cli_result.header@.len(),
                k <= width,
                separators@.len() == k,
                forall|j: int| 0 <= j < k ==> separators@[j]@ == underline(cli_result.header@[j]@),
            decreases width - k,
        {
            separators.push(underline_for(cli_result.header[k].as_str()));
            k = k + 1;
        }
        assert(separators.deep_view() =~= underlines(cli_result.header.deep_view()));
        lines.push(join(&separators, "\t"));

        let n = cli_result.rows.len();
        let mut i: usize = 0;
        while i < n
            invariant
                n == cli_result.rows@.len(),
                i <= n,
                lines@.len() == i + 2,
                lines@[0]@ == joined(cli_result.header.deep_view(), "\t"@),
                lines@[1]@ == joined(underlines(cli_result.header.deep_view()), "\t"@),
                forall|j: int|
                    0 <= j < i ==> lines@[j + 2]@ == joined(
                        cli_result.rows@[j].deep_view(),
                        "\t"@,
                    ),
            decreases n - i,
        {
            lines.push(join(&cli_result.rows[i], "\t"));
            i = i + 1;
        }
        assert(lines.deep_view() =~= display_of(self@, cli_result@));
        lines
    }
}

} // verus!
