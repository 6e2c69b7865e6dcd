use vstd::prelude::*;

use crate::commons::{lowercase, str_eq, to_lowercase};

verus! {

/// The subcommands of the program.
#[derive(Clone, Copy, Debug, PartialEq, Eq, Structural)]
pub enum Command {
    Serve,
    Index,
    Unknown,
}

/// The subcommand that a lower-cased name selects.
pub open spec fn spec_command_of_lowercase(name: Seq<char>) -> Command {
    if name == "serve"@ {
        Command::Serve
    } else if name == "index"@ {
        Command::Index
    } else {
        Command::Unknown
    }
}

/// `serve` selects the server, `index` the indexer, and any other name
/// nothing.
pub proof fn law_commands(name: Seq<char>)
    ensures
        spec_command_of_lowercase("serve"@) == Command::Serve,
        spec_command_of_lowercase("index"@) == Command::Index,
        name != "serve"@ && name != "index"@ ==> spec_command_of_lowercase(name) == Command::Unknown,
{
    reveal_strlit("serve");
    reveal_strlit("index");
    assert("serve"@[0] != "index"@[0]);
}

/// The subcommand that the already lower-cased `name` selects.
pub fn command_of_lowercase(name: &str) -> (res: Command)
    ensures
        res == spec_command_of_lowercase(name@),
{
    if str_eq(name, "serve") {
        Command::Serve
    } else if str_eq(name, "index") {
        Command::Index
    } else {
        Command::Unknown
    }
}

/// The subcommand that `arg` names, whatever its case.
pub fn command(arg: &str) -> (res: Command)
    ensures
        res == spec_command_of_lowercase(lowercase(arg@)),
{
    let lower = to_lowercase(arg);
    command_of_lowercase(lower.as_str())
}

} // verus!
