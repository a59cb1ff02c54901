//! The table of built-in commands and the fixed texts they print.

use crate::text::str_equal;
use vstd::prelude::*;

verus! {

/// A built-in command.
#[derive(Clone, Copy, Debug, PartialEq, Eq, Structural)]
pub enum CommandKind {
    Cd,
    Ls,
    Mkdir,
    Touch,
    Cat,
    Echo,
    Color,
    Clear,
    Help,
    Version,
}

/// Why a command printed an error line and did nothing else.
#[derive(Clone, Copy, Debug, PartialEq, Eq, Structural)]
pub enum CommandError {
    /// A file or a directory is not there.
    NotFound,
    /// A required argument is missing, or is not what the command takes.
    InvalidArgument,
    /// The table has no command of that name.
    UnknownCommand,
}

/// What became of a line that was given to the dispatcher.
#[derive(Clone, Copy, Debug, PartialEq, Eq, Structural)]
pub enum Outcome {
    /// The line held no word, and nothing was done.
    Empty,
    /// The command ran.
    Done,
    /// The command failed, and an error line says so.
    Failed(CommandError),
}

/// The colour of ordinary output until `color` changes it.
pub const DEFAULT_COLOR: u32 = 0x0000_0000;

/// The colour of error and usage lines.
pub const ERROR_COLOR: u32 = 0x00FF_0000;

/// The colour of directories in a listing.
pub const DIRECTORY_COLOR: u32 = 0x0000_00FF;

pub const PROMPT: &'static str = "$ ";

/// The directory that a new terminal's root holds.
pub const HOME: &'static str = "home";

pub const USAGE_CD: &'static str = "Usage: cd <directory>\n";

pub const USAGE_MKDIR: &'static str = "Usage: mkdir <directory>\n";

pub const USAGE_TOUCH: &'static str = "Usage: touch <filename>\n";

pub const USAGE_CAT: &'static str = "Usage: cat [file]\n";

pub const USAGE_COLOR: &'static str = "Usage: color <hex>\n";

pub const DIRECTORY_NOT_FOUND: &'static str = "Directory not found: ";

pub const FILE_NOT_FOUND: &'static str = "File not found\n";

pub const NO_CURRENT_DIRECTORY: &'static str = "Current directory not found\n";

pub const COLOR_CHANGED: &'static str = "Color changed\n";

pub const INVALID_COLOR: &'static str = "Invalid color format. Use hex (e.g., 0xFF0000)\n";

pub const UNKNOWN_COMMAND: &'static str = "Unknown command: ";

pub const VERSION: &'static str = "NyanNix Terminal v0.1.0\n";

pub const HELP: &'static str =
    "Available commands:\ncd <directory> - Change directory\nls - List files\nmkdir <directory> - Create directory\ntouch <filename> - Create file\ncat [file] - Show file contents\necho [text] - Print text\ncolor [hex] - Change text color\nclear - Clear terminal\nhelp - Show this help\nversion - Show version\n";

/// The command that a name stands for. Names are matched exactly, case
/// included.
pub open spec fn command_kind(name: Seq<char>) -> Option<CommandKind> {
    if name == "cd"@ {
        Some(CommandKind::Cd)
    } else if name == "ls"@ {
        Some(CommandKind::Ls)
    } else if name == "mkdir"@ {
        Some(CommandKind::Mkdir)
    } else if name == "touch"@ {
        Some(CommandKind::Touch)
    } else if name == "cat"@ {
        Some(CommandKind::Cat)
    } else if name == "echo"@ {
        Some(CommandKind::Echo)
    } else if name == "color"@ {
        Some(CommandKind::Color)
    } else if name == "clear"@ {
        Some(CommandKind::Clear)
    } else if name == "help"@ {
        Some(CommandKind::Help)
    } else if name == "version"@ {
        Some(CommandKind::Version)
    } else {
        None
    }
}

/// Looks a name up in the command table.
pub fn lookup(name: &str) -> (r: Option<CommandKind>)
    ensures
        r == command_kind(name@),
{
    if str_equal(name, "cd") {
        Some(CommandKind::Cd)
    } else if str_equal(name, "ls") {
        Some(CommandKind::Ls)
    } else if str_equal(name, "mkdir") {
        Some(CommandKind::Mkdir)
    } else if str_equal(name, "touch") {
        Some(CommandKind::Touch)
    } else if str_equal(name, "cat") {
        Some(CommandKind::Cat)
    } else if str_equal(name, "echo") {
        Some(CommandKind::Echo)
    } else if str_equal(name, "color") {
        Some(CommandKind::Color)
    } else if str_equal(name, "clear") {
        Some(CommandKind::Clear)
    } else if str_equal(name, "help") {
        Some(CommandKind::Help)
    } else if str_equal(name, "version") {
        Some(CommandKind::Version)
    } else {
        None
    }
}

} // verus!
