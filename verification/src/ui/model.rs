//! The terminal as mathematics: its state, and what each command, key and
//! pointer sample makes of it.

use crate::filesystem::{is_listing, DirModel, FileSystemModel};
use crate::scrollback::{clamp, BufferModel, LineModel};
use crate::selection::{begun, extended, in_order, Anchor};
use crate::surface::DrawModel;
use crate::text::{color_of, join_words, tokens, trimmed};
use crate::ui::commands::{
    command_kind, CommandError, CommandKind, Outcome, COLOR_CHANGED, DEFAULT_COLOR, DIRECTORY_COLOR,
    DIRECTORY_NOT_FOUND, ERROR_COLOR, FILE_NOT_FOUND, HELP, HOME, INVALID_COLOR, NO_CURRENT_DIRECTORY, PROMPT, UNKNOWN_COMMAND, USAGE_CAT,
    USAGE_CD, USAGE_COLOR, USAGE_MKDIR, USAGE_TOUCH, VERSION,
};
use vstd::prelude::*;

verus! {

/// Width of a character cell, in pixels.
pub const FONT_WIDTH: u32 = 8;

/// Height of a glyph, in pixels.
pub const FONT_HEIGHT: u32 = 16;

/// Distance between the tops of two lines, in pixels.
pub const LINE_HEIGHT: u32 = 24;

/// Distance from the left edge of the terminal to its first column.
pub const PAD_LEFT: u32 = 5;

/// Distance from the top edge of the terminal to its first line.
pub const TEXT_TOP: u32 = 25;

/// The colour behind the text.
pub const BACKGROUND: u32 = 0x00FF_FFFF;

/// The colour laid over selected text.
pub const SELECTION_COLOR: u32 = 0x4000_00FF;

/// What the terminal is doing with its input.
#[derive(Clone, Copy, Debug, PartialEq, Eq, Structural)]
pub enum Mode {
    /// Characters go into the command line.
    Normal,
    /// The pointer button is held and moves the end of the selection.
    Dragging,
    /// The command line shows an earlier command.
    BrowsingHistory,
}

/// What a character from the keyboard means.
#[derive(Clone, Copy, Debug, PartialEq, Eq, Structural)]
pub enum Key {
    /// A character for the command line.
    Char(char),
    /// The line is complete.
    Enter,
    /// Remove the last character.
    Backspace,
    /// Show the previous command.
    Up,
    /// Show the next command.
    Down,
    /// A control character without a meaning here.
    Ignored,
}

/// The meaning of a character: line feed and carriage return complete
/// the line, backspace and delete remove a character, `DLE` and `SO` (the
/// codes of Ctrl-P and Ctrl-N) stand for the up and down arrows, the other
/// control characters mean nothing, and anything else is text.
pub open spec fn decode(c: char) -> Key {
    if c == '\n' || c == '\r' {
        Key::Enter
    } else if c == '\u{08}' || c == '\u{7f}' {
        Key::Backspace
    } else if c == '\u{10}' {
        Key::Up
    } else if c == '\u{0e}' {
        Key::Down
    } else if (c as int) < 0x20 {
        Key::Ignored
    } else {
        Key::Char(c)
    }
}

/// How many lines fit in a terminal of this height.
pub open spec fn rows_for(height: u32) -> nat {
    if height > TEXT_TOP {
        ((height - TEXT_TOP) / LINE_HEIGHT as int) as nat
    } else {
        0
    }
}

/// How many columns fit in a terminal of this width.
pub open spec fn columns_for(width: u32) -> nat {
    if width > PAD_LEFT {
        ((width - PAD_LEFT) / FONT_WIDTH as int) as nat
    } else {
        0
    }
}

/// The listing of a directory: the one sequence that [`is_listing`]
/// accepts.
pub open spec fn listing_of(d: DirModel) -> Seq<(Seq<char>, bool)> {
    choose|entries: Seq<(Seq<char>, bool)>| is_listing(d, entries)
}

/// The line that `ls` prints for an entry: the name, followed by `/` for
/// a directory.
pub open spec fn entry_text(entry: (Seq<char>, bool)) -> Seq<char> {
    if entry.1 {
        entry.0.push('/').push('\n')
    } else {
        entry.0.push('\n')
    }
}

/// The buffer after `ls` printed these entries, files in `color`.
pub open spec fn listed(b: BufferModel, entries: Seq<(Seq<char>, bool)>, color: u32) -> BufferModel
    decreases entries.len(),
{
    if entries.len() == 0 {
        b
    } else {
        let entry = entries.last();
        listed(b, entries.drop_last(), color).appended(
            entry_text(entry),
            if entry.1 {
                DIRECTORY_COLOR
            } else {
                color
            },
        )
    }
}

/// The state of the terminal.
pub struct TerminalModel {
    pub x: u32,
    pub y: u32,
    pub width: u32,
    pub height: u32,
    pub buffer: BufferModel,
    pub selection: Option<(Anchor, Anchor)>,
    /// The commands that were run, oldest first.
    pub history: Seq<Seq<char>>,
    /// Which of them the command line shows; -1 for none.
    pub history_index: int,
    /// The command line as typed so far.
    pub command: Seq<char>,
    pub fs: FileSystemModel,
    /// The colour of ordinary output.
    pub color: u32,
    pub mode: Mode,
}

impl TerminalModel {
    /// The terminal lies within the surface's coordinates, the buffer
    /// knows how many lines fit, the scroll offset is within bounds, the
    /// current path leads to a directory, and an earlier command is shown
    /// exactly while the history is browsed.
    pub open spec fn wf(self) -> bool {
        &&& self.x + self.width <= u32::MAX
        &&& self.y + self.height <= u32::MAX
        &&& self.buffer.wf()
        &&& self.buffer.visible_rows == rows_for(self.height)
        &&& self.fs.current() is Some
        &&& -1 <= self.history_index < self.history.len()
        &&& self.history.len() <= isize::MAX
        &&& (self.mode == Mode::BrowsingHistory) == (self.history_index >= 0)
    }

    /// The terminal as it starts: a root directory that holds an empty
    /// `home` and nothing else, an empty buffer, no selection, no history
    /// and an empty command line.
    pub open spec fn initial(x: u32, y: u32, width: u32, height: u32) -> TerminalModel {
        Self::initial_with(x, y, width, height, None)
    }

    /// The terminal as it starts, with a scrollback that keeps the newest
    /// `capacity` lines only where a limit is given.
    pub open spec fn initial_with(
        x: u32,
        y: u32,
        width: u32,
        height: u32,
        capacity: Option<nat>,
    ) -> TerminalModel {
        TerminalModel {
            x,
            y,
            width,
            height,
            buffer: BufferModel {
                lines: Seq::empty(),
                scroll_offset: 0,
                visible_rows: rows_for(height),
                capacity,
                dirty: true,
            },
            selection: None,
            history: Seq::empty(),
            history_index: -1,
            command: Seq::empty(),
            fs: FileSystemModel { root: DirModel::empty().with_dir(HOME@), path: Seq::empty() },
            color: DEFAULT_COLOR,
            mode: Mode::Normal,
        }
    }

    /// After `text` was printed in `color`.
    pub open spec fn printed(self, text: Seq<char>, color: u32) -> TerminalModel {
        TerminalModel { buffer: self.buffer.appended(text, color), ..self }
    }

    /// After `cd` with these words.
    pub open spec fn cd(self, words: Seq<Seq<char>>) -> TerminalModel {
        if words.len() < 2 {
            self.printed(USAGE_CD@, ERROR_COLOR)
        } else if self.fs.can_enter(words[1]) {
            TerminalModel { fs: self.fs.entered(words[1]), ..self }
        } else {
            self.printed(DIRECTORY_NOT_FOUND@ + words[1].push('\n'), ERROR_COLOR)
        }
    }

    /// After `ls`.
    pub open spec fn ls(self) -> TerminalModel {
        match self.fs.current() {
            Some(d) => TerminalModel {
                buffer: listed(self.buffer, listing_of(d), self.color),
                ..self
            },
            None => self.printed(NO_CURRENT_DIRECTORY@, ERROR_COLOR),
        }
    }

    /// After `mkdir` with these words.
    pub open spec fn mkdir(self, words: Seq<Seq<char>>) -> TerminalModel {
        if words.len() < 2 {
            self.printed(USAGE_MKDIR@, ERROR_COLOR)
        } else {
            match self.fs.current() {
                Some(d) => TerminalModel { fs: self.fs.with_current(d.with_dir(words[1])), ..self },
                None => self.printed(NO_CURRENT_DIRECTORY@, ERROR_COLOR),
            }
        }
    }

    /// After `touch` with these words.
    pub open spec fn touch(self, words: Seq<Seq<char>>) -> TerminalModel {
        if words.len() < 2 {
            self.printed(USAGE_TOUCH@, ERROR_COLOR)
        } else {
            match self.fs.current() {
                Some(d) => TerminalModel {
                    fs: self.fs.with_current(d.with_file(words[1], Seq::empty())),
                    ..self
                },
                None => self.printed(NO_CURRENT_DIRECTORY@, ERROR_COLOR),
            }
        }
    }

    /// After `cat` with these words.
    pub open spec fn cat(self, words: Seq<Seq<char>>) -> TerminalModel {
        if words.len() < 2 {
            self.printed(USAGE_CAT@, ERROR_COLOR)
        } else {
            match self.fs.current() {
                Some(d) if d.files.contains_key(words[1]) => self.printed(
                    d.files[words[1]],
                    self.color,
                ),
                _ => self.printed(FILE_NOT_FOUND@, ERROR_COLOR),
            }
        }
    }

    /// After `echo` with these words.
    pub open spec fn echo(self, words: Seq<Seq<char>>) -> TerminalModel {
        self.printed(join_words(words.skip(1)).push('\n'), self.color)
    }

    /// After `color` with these words.
    pub open spec fn recolor(self, words: Seq<Seq<char>>) -> TerminalModel {
        if words.len() < 2 {
            self.printed(USAGE_COLOR@, ERROR_COLOR)
        } else {
            match color_of(words[1]) {
                Some(c) => TerminalModel { color: c, ..self }.printed(COLOR_CHANGED@, c),
                None => self.printed(INVALID_COLOR@, ERROR_COLOR),
            }
        }
    }

    /// After `clear`.
    pub open spec fn clear(self) -> TerminalModel {
        TerminalModel { buffer: self.buffer.cleared(), selection: None, ..self }
    }

    /// What becomes of `cd` with these words.
    pub open spec fn cd_outcome(self, words: Seq<Seq<char>>) -> Outcome {
        if words.len() < 2 {
            Outcome::Failed(CommandError::InvalidArgument)
        } else if self.fs.can_enter(words[1]) {
            Outcome::Done
        } else {
            Outcome::Failed(CommandError::NotFound)
        }
    }

    /// What becomes of a command that works on the current directory.
    pub open spec fn here_outcome(self) -> Outcome {
        if self.fs.current() is Some {
            Outcome::Done
        } else {
            Outcome::Failed(CommandError::NotFound)
        }
    }

    /// What becomes of `mkdir` or `touch` with these words.
    pub open spec fn make_outcome(self, words: Seq<Seq<char>>) -> Outcome {
        if words.len() < 2 {
            Outcome::Failed(CommandError::InvalidArgument)
        } else {
            self.here_outcome()
        }
    }

    /// What becomes of `cat` with these words.
    pub open spec fn cat_outcome(self, words: Seq<Seq<char>>) -> Outcome {
        if words.len() < 2 {
            Outcome::Failed(CommandError::InvalidArgument)
        } else {
            match self.fs.current() {
                Some(d) if d.files.contains_key(words[1]) => Outcome::Done,
                _ => Outcome::Failed(CommandError::NotFound),
            }
        }
    }

    /// What becomes of `color` with these words.
    pub open spec fn recolor_outcome(self, words: Seq<Seq<char>>) -> Outcome {
        if words.len() >= 2 && color_of(words[1]) is Some {
            Outcome::Done
        } else {
            Outcome::Failed(CommandError::InvalidArgument)
        }
    }

    /// What becomes of `line` when the dispatcher runs it.
    pub open spec fn outcome(self, line: Seq<char>) -> Outcome {
        let words = tokens(line);
        if words.len() == 0 {
            Outcome::Empty
        } else {
            match command_kind(words[0]) {
                Some(CommandKind::Cd) => self.cd_outcome(words),
                Some(CommandKind::Ls) => self.here_outcome(),
                Some(CommandKind::Mkdir) => self.make_outcome(words),
                Some(CommandKind::Touch) => self.make_outcome(words),
                Some(CommandKind::Cat) => self.cat_outcome(words),
                Some(CommandKind::Color) => self.recolor_outcome(words),
                Some(_) => Outcome::Done,
                None => Outcome::Failed(CommandError::UnknownCommand),
            }
        }
    }

    /// After the command dispatcher ran `line`.
    pub open spec fn dispatched(self, line: Seq<char>) -> TerminalModel {
        let words = tokens(line);
        if words.len() == 0 {
            self
        } else {
            match command_kind(words[0]) {
                Some(CommandKind::Cd) => self.cd(words),
                Some(CommandKind::Ls) => self.ls(),
                Some(CommandKind::Mkdir) => self.mkdir(words),
                Some(CommandKind::Touch) => self.touch(words),
                Some(CommandKind::Cat) => self.cat(words),
                Some(CommandKind::Echo) => self.echo(words),
                Some(CommandKind::Color) => self.recolor(words),
                Some(CommandKind::Clear) => self.clear(),
                Some(CommandKind::Help) => self.printed(HELP@, self.color),
                Some(CommandKind::Version) => self.printed(VERSION@, self.color),
                None => self.printed(
                    UNKNOWN_COMMAND@ + trimmed(line).push('\n'),
                    ERROR_COLOR,
                ),
            }
        }
    }

    /// After the command line was run: dispatched, recorded in the history
    /// unless it held no word (or the history holds as many entries as a
    /// signed index can count), emptied, and followed by a fresh prompt.
    pub open spec fn executed(self) -> TerminalModel {
        let after = self.dispatched(self.command);
        TerminalModel {
            history: if tokens(self.command).len() == 0 || after.history.len() >= isize::MAX {
                after.history
            } else {
                after.history.push(self.command)
            },
            history_index: -1,
            command: Seq::empty(),
            mode: if after.mode == Mode::BrowsingHistory {
                Mode::Normal
            } else {
                after.mode
            },
            ..after.printed(PROMPT@, after.color)
        }
    }

    /// After `c` was put at the end of the command line and of the line
    /// that shows it.
    pub open spec fn inserted(self, c: char) -> TerminalModel {
        TerminalModel {
            command: self.command.push(c),
            buffer: self.buffer.echoed(c, self.color),
            ..self
        }
    }

    /// With browsing of the history ended and the command line kept.
    pub open spec fn editing(self) -> TerminalModel {
        TerminalModel { history_index: -1, mode: Mode::Normal, ..self }
    }

    /// After the last character of the command line was removed, if it
    /// had one.
    pub open spec fn backspaced(self) -> TerminalModel {
        if self.command.len() == 0 {
            self
        } else {
            TerminalModel {
                command: self.command.drop_last(),
                buffer: self.buffer.erased(),
                ..self
            }
        }
    }

    /// The entry of the history that an arrow key leads to: the newest
    /// when none is shown, else the one before or after the one shown, as
    /// far as there is one.
    pub open spec fn history_target(self, up: bool) -> int {
        if self.history_index < 0 {
            self.history.len() - 1
        } else if up {
            if self.history_index > 0 {
                self.history_index - 1
            } else {
                0
            }
        } else {
            if self.history_index + 1 < self.history.len() {
                self.history_index + 1
            } else {
                self.history.len() - 1
            }
        }
    }

    /// After an arrow key: the command line shows the entry that
    /// [`Self::history_target`] names. Nothing happens while the history
    /// is empty.
    pub open spec fn history_moved(self, up: bool) -> TerminalModel {
        if self.history.len() == 0 {
            self
        } else {
            let target = self.history_target(up);
            TerminalModel {
                history_index: target,
                command: self.history[target],
                buffer: self.buffer.retyped(PROMPT@ + self.history[target], self.color),
                mode: Mode::BrowsingHistory,
                ..self
            }
        }
    }

    /// After a character came from the keyboard. While the pointer drags
    /// a selection the keyboard is not listened to.
    pub open spec fn key_pressed(self, c: char) -> TerminalModel {
        if self.mode == Mode::Dragging {
            self
        } else {
            match decode(c) {
                Key::Char(c) => self.editing().inserted(c),
                Key::Enter => self.executed(),
                Key::Backspace => self.editing().backspaced(),
                Key::Up => self.history_moved(true),
                Key::Down => self.history_moved(false),
                Key::Ignored => self,
            }
        }
    }

    /// The place in the buffer under a pixel: none above the first line;
    /// the first column to the left of it.
    pub open spec fn cell_at(self, px: i32, py: i32) -> Option<Anchor> {
        let dx = px - self.x - PAD_LEFT;
        let dy = py - self.y - TEXT_TOP;
        let line = dy / LINE_HEIGHT as int + self.buffer.scroll_offset;
        if dy < 0 || line > usize::MAX {
            None
        } else {
            Some(
                Anchor {
                    column: if dx < 0 {
                        0
                    } else {
                        (dx / FONT_WIDTH as int) as usize
                    },
                    line: line as usize,
                },
            )
        }
    }

    /// After a selection was begun under a pixel.
    pub open spec fn selection_started(self, px: i32, py: i32) -> TerminalModel {
        match self.cell_at(px, py) {
            Some(at) => TerminalModel {
                selection: begun(self.selection, at, self.buffer.lines.len()),
                buffer: BufferModel { dirty: true, ..self.buffer },
                ..self
            },
            None => self,
        }
    }

    /// After the end of the selection was moved to a pixel.
    pub open spec fn selection_updated(self, px: i32, py: i32) -> TerminalModel {
        match self.cell_at(px, py) {
            Some(at) => TerminalModel {
                selection: extended(self.selection, at, self.buffer.lines.len()),
                buffer: BufferModel { dirty: true, ..self.buffer },
                ..self
            },
            None => self,
        }
    }

    /// After a pointer sample. Pressing the first button begins a
    /// selection and a drag; moving with it held extends the selection;
    /// releasing it ends the drag and keeps the selection.
    pub open spec fn pointer_moved(self, px: i32, py: i32, buttons: u8) -> TerminalModel {
        let held = buttons & 1 != 0;
        if self.mode == Mode::Dragging {
            if held {
                self.selection_updated(px, py)
            } else {
                TerminalModel { mode: Mode::Normal, ..self }
            }
        } else if held {
            TerminalModel { mode: Mode::Dragging, history_index: -1, ..self }.selection_started(
                px,
                py,
            )
        } else {
            self
        }
    }

    /// The lines on screen.
    pub open spec fn visible(self) -> Seq<LineModel> {
        self.buffer.window(self.buffer.visible_rows)
    }

    /// The request that draws the line on row `r` of the screen.
    pub open spec fn row_text(self, r: int) -> DrawModel {
        DrawModel::Text {
            x: (self.x + PAD_LEFT) as u32,
            y: (self.y + TEXT_TOP + r * LINE_HEIGHT) as u32,
            text: self.visible()[r].text,
            color: self.visible()[r].color,
        }
    }

    /// The columns of row `r` that the selection covers, as far as the
    /// line and the terminal's width reach: from the first, up to but
    /// without the second.
    pub open spec fn row_columns(self, r: int) -> Option<(int, int)> {
        match self.selection {
            None => None,
            Some((a, b)) => {
                let lo = in_order(a, b).0;
                let hi = in_order(a, b).1;
                let line = self.buffer.scroll_offset + r;
                let len = self.visible()[r].text.len() as int;
                let columns = columns_for(self.width) as int;
                let from = if line == lo.line {
                    lo.column as int
                } else {
                    0
                };
                let to = if line == hi.line {
                    hi.column as int
                } else {
                    len
                };
                let first = clamp(clamp(from, 0, len), 0, columns);
                let end = clamp(clamp(to, 0, len), 0, columns);
                if lo.line <= line <= hi.line && first < end {
                    Some((first, end))
                } else {
                    None
                }
            },
        }
    }

    /// The requests that draw the first `n` lines on screen.
    pub open spec fn texts(self, n: int) -> Seq<DrawModel>
        decreases n,
    {
        if n <= 0 {
            Seq::empty()
        } else {
            self.texts(n - 1).push(self.row_text(n - 1))
        }
    }

    /// The requests that lay the selection over the first `n` lines on
    /// screen.
    pub open spec fn highlights(self, n: int) -> Seq<DrawModel>
        decreases n,
    {
        if n <= 0 {
            Seq::empty()
        } else {
            match self.row_columns(n - 1) {
                Some((first, end)) => self.highlights(n - 1).push(
                    DrawModel::FillRect {
                        x: (self.x + PAD_LEFT + first * FONT_WIDTH) as u32,
                        y: (self.y + TEXT_TOP + (n - 1) * LINE_HEIGHT) as u32,
                        width: ((end - first) * FONT_WIDTH) as u32,
                        height: FONT_HEIGHT,
                        color: SELECTION_COLOR,
                    },
                ),
                None => self.highlights(n - 1),
            }
        }
    }

    /// How many of the lines on screen are drawn: all of them, or none
    /// where the terminal is too narrow to hold a column.
    pub open spec fn rows_drawn(self) -> int {
        if columns_for(self.width) > 0 {
            self.visible().len() as int
        } else {
            0
        }
    }

    /// One frame: the background, the lines on screen, the selection over
    /// them, and the request to show it all.
    pub open spec fn frame(self) -> Seq<DrawModel> {
        seq![
            DrawModel::FillRect {
                x: self.x,
                y: self.y,
                width: self.width,
                height: self.height,
                color: BACKGROUND,
            },
        ] + self.texts(self.rows_drawn()) + self.highlights(self.rows_drawn()) + seq![
            DrawModel::Present,
        ]
    }

    /// After `text` was pasted: each line break runs the command line,
    /// every other character is put at its end.
    pub open spec fn pasted(self, text: Seq<char>) -> TerminalModel
        decreases text.len(),
    {
        if text.len() == 0 {
            self
        } else {
            let before = self.pasted(text.drop_last());
            if text.last() == '\n' {
                before.executed()
            } else {
                before.inserted(text.last())
            }
        }
    }
}

/// Reads the meaning of a character from the keyboard.
pub fn decode_key(c: char) -> (r: Key)
    ensures
        r == decode(c),
{
    if c == '\n' || c == '\r' {
        Key::Enter
    } else if c == '\u{08}' || c == '\u{7f}' {
        Key::Backspace
    } else if c == '\u{10}' {
        Key::Up
    } else if c == '\u{0e}' {
        Key::Down
    } else if c <= '\u{1f}' {
        Key::Ignored
    } else {
        Key::Char(c)
    }
}

} // verus!
