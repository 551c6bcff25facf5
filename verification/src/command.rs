//! The commands that every game understands.
//!
//! A command is a whole line: `!hint`, `!restart` or `!quit`, or one of
//! their short forms.

use vstd::prelude::*;
use crate::game::{GAME_ONGOING, GAME_OVER, GAME_RESTART};
use crate::text::{is_word, to_chars};

verus! {

/// A command.
#[derive(Clone, Copy, Debug, PartialEq, Eq, Structural)]
pub enum Command {
    /// `!hint` or `!h`.
    Hint,
    /// `!restart`, `!next`, `!reset` or `!r`.
    Restart,
    /// `!quit`, `!leave`, `!exit` or `!q`.
    Quit,
    /// Anything else.
    Unknown,
}

/// Whether `line` asks for a hint.
pub open spec fn asks_hint(line: Seq<char>) -> bool {
    line == "!hint"@ || line == "!h"@
}

/// Whether `line` asks for a new round.
pub open spec fn asks_restart(line: Seq<char>) -> bool {
    line == "!restart"@ || line == "!next"@ || line == "!reset"@ || line == "!r"@
}

/// Whether `line` asks to leave.
pub open spec fn asks_quit(line: Seq<char>) -> bool {
    line == "!quit"@ || line == "!leave"@ || line == "!exit"@ || line == "!q"@
}

/// The command that `line` gives.
pub open spec fn command_of(line: Seq<char>) -> Command {
    if asks_hint(line) {
        Command::Hint
    } else if asks_restart(line) {
        Command::Restart
    } else if asks_quit(line) {
        Command::Quit
    } else {
        Command::Unknown
    }
}

/// The code that a command hands back to the loop that runs the round.
pub open spec fn code_of(command: Command) -> i32 {
    match command {
        Command::Hint => GAME_ONGOING,
        Command::Restart => GAME_RESTART,
        Command::Quit => GAME_OVER,
        Command::Unknown => GAME_ONGOING,
    }
}

/// Whether `line` starts with `!`, as every command does.
pub fn is_command(line: &Vec<char>) -> (command: bool)
    ensures
        command == (line@.len() > 0 && line@[0] == '!'),
{
    line.len() > 0 && line[0] == '!'
}

/// The command that the characters `line` give.
pub fn read_command(line: &Vec<char>) -> (command: Command)
    ensures
        command == command_of(line@),
{
    if is_word(line, "!hint") || is_word(line, "!h") {
        Command::Hint
    } else if is_word(line, "!restart") || is_word(line, "!next") || is_word(line, "!reset")
        || is_word(line, "!r") {
        Command::Restart
    } else if is_word(line, "!quit") || is_word(line, "!leave") || is_word(line, "!exit")
        || is_word(line, "!q") {
        Command::Quit
    } else {
        Command::Unknown
    }
}

/// The command that `line` gives.
pub fn parse_command(line: &str) -> (command: Command)
    ensures
        command == command_of(line@),
{
    let chars = to_chars(line);
    read_command(&chars)
}

impl Command {
    /// The code that the command hands back to the loop that runs the round.
    pub fn code(self) -> (code: i32)
        ensures
            code == code_of(self),
    {
        match self {
            Command::Hint => GAME_ONGOING,
            Command::Restart => GAME_RESTART,
            Command::Quit => GAME_OVER,
            Command::Unknown => GAME_ONGOING,
        }
    }
}

} // verus!
