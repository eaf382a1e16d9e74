//! What the winner of an election does with its chord.

use vstd::prelude::*;
use vstd::string::StringExecFns;
use crate::election::Election;
use crate::table::CommandTable;

verus! {

/// Words that stand before the command in the report of a launch.
pub const LAUNCH_PREFIX: &'static str = "run command: ";

/// What an invocation does at its end.
#[derive(Debug, PartialEq, Eq)]
pub enum Dispatch {
    /// Hand `command` to the shell, once, and do not wait for it.
    Launch { command: String },
    /// Launch nothing and end in success.
    Nothing,
}

/// The shell that runs a command, and the flag that makes it take the
/// command from its next argument.
#[derive(Debug, Clone, Copy, PartialEq, Eq)]
pub struct Shell {
    pub program: &'static str,
    pub flag: &'static str,
}

/// The command that the table binds the chord of the election to, if
/// the election was won and the table binds the chord.
pub open spec fn resolved(table: Map<Seq<u32>, Seq<char>>, election: Election) -> Option<
    Seq<char>,
> {
    match election {
        Election::Execute { chord } => if table.contains_key(chord@) {
            Some(table[chord@])
        } else {
            None
        },
        Election::Discard => None,
    }
}

/// Decides what to launch. Only a winner launches, and only the command
/// that the table binds its chord to; a loser, and a winner whose chord
/// the table does not bind, launch nothing.
pub fn resolve(table: &CommandTable, election: &Election) -> (d: Dispatch)
    ensures
        resolved(table@, *election) matches Some(command) ==> (d matches Dispatch::Launch {
            command: launched,
        } && launched@ == command),
        resolved(table@, *election) is None ==> d == Dispatch::Nothing,
{
    match election {
        Election::Execute { chord } => match table.lookup(chord.as_slice()) {
            Some(command) => Dispatch::Launch { command: command.clone() },
            None => Dispatch::Nothing,
        },
        Election::Discard => Dispatch::Nothing,
    }
}

/// The shell of the platform: `cmd /C` on Windows, `sh -c` elsewhere.
pub fn shell(windows: bool) -> (s: Shell)
    ensures
        windows ==> s.program@ == "cmd"@ && s.flag@ == "/C"@,
        !windows ==> s.program@ == "sh"@ && s.flag@ == "-c"@,
{
    if windows {
        Shell { program: "cmd", flag: "/C" }
    } else {
        Shell { program: "sh", flag: "-c" }
    }
}

/// The line that reports a launch.
pub fn launch_report(command: &str) -> (report: String)
    ensures
        report@ == LAUNCH_PREFIX@ + command@,
{
    String::from_str(LAUNCH_PREFIX).concat(command)
}

} // verus!
