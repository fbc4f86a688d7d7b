//! The command line.

use vstd::prelude::*;

use crate::text;

verus! {

/// How to call the program.
pub const USAGE: &'static str = "autonice — eBPF-driven automatic renicing

Usage:
  autonice            Run the daemon (default).
  autonice install    Install + enable the systemd service (needs root).
  autonice default    Print the built-in default config to stdout.
  autonice help       Show this help.";

/// The exit code for a subcommand that there is not.
pub const UNKNOWN_SUBCOMMAND_EXIT: i32 = 2;

/// What the program is asked to do.
#[derive(Clone, Copy, Debug, PartialEq, Eq, Structural)]
pub enum Command {
    /// Run the daemon.
    Run,
    /// Install and enable the service.
    Install,
    /// Print the built-in default config.
    Default,
    /// Show the usage.
    Help,
    /// Complain, show the usage, and fail.
    Unknown,
}

/// What the first argument asks for; without one, the daemon.
pub open spec fn command_of(argument: Option<Seq<char>>) -> Command {
    match argument {
        None => Command::Run,
        Some(word) => if word == "install"@ {
            Command::Install
        } else if word == "default"@ {
            Command::Default
        } else if word == "help"@ || word == "-h"@ || word == "--help"@ {
            Command::Help
        } else if word == "run"@ {
            Command::Run
        } else {
            Command::Unknown
        },
    }
}

/// What the first argument asks for.
pub fn command(argument: Option<&str>) -> (command: Command)
    ensures
        command == command_of(
            match argument {
                Some(word) => Some(word@),
                None => None,
            },
        ),
{
    match argument {
        None => Command::Run,
        Some(word) => {
            if text::same_text(word, "install") {
                Command::Install
            } else if text::same_text(word, "default") {
                Command::Default
            } else if text::same_text(word, "help") || text::same_text(word, "-h")
                || text::same_text(word, "--help") {
                Command::Help
            } else if text::same_text(word, "run") {
                Command::Run
            } else {
                Command::Unknown
            }
        },
    }
}

/// The complaint about a subcommand that there is not.
pub fn unknown_subcommand(other: &str) -> (complaint: String)
    ensures
        complaint@ == "autonice: unknown subcommand `"@ + other@ + "`\n"@,
{
    "autonice: unknown subcommand `".to_owned().concat(other).concat("`\n")
}

/// Each word asks for one thing, and every other word is unknown.
pub proof fn law_words_and_commands(word: Seq<char>)
    ensures
        command_of(None) == Command::Run,
        command_of(Some(word)) == Command::Run <==> word == "run"@,
        command_of(Some(word)) == Command::Install <==> word == "install"@,
        command_of(Some(word)) == Command::Default <==> word == "default"@,
        command_of(Some(word)) == Command::Help <==> (word == "help"@ || word == "-h"@ || word
            == "--help"@),
        command_of(Some(word)) == Command::Unknown <==> !(word == "run"@ || word == "install"@
            || word == "default"@ || word == "help"@ || word == "-h"@ || word == "--help"@),
{
    reveal_strlit("run");
    reveal_strlit("install");
    reveal_strlit("default");
    reveal_strlit("help");
    reveal_strlit("-h");
    reveal_strlit("--help");
    assert("run"@.len() == 3 && "help"@.len() == 4 && "-h"@.len() == 2 && "--help"@.len() == 6);
    assert("install"@.len() == 7 && "default"@.len() == 7);
    assert("install"@[0] != "default"@[0]);
}

} // verus!
