//! The terminal itself: the state that the event loop owns, and the one
//! place where keys, pointer samples and commands change it.

use crate::filesystem::{DirModel, Directory, FileSystem, FsError};
use crate::filesystem_laws::{lemma_current_stays, lemma_listing_unique};
use crate::scrollback::{clamp, BufferModel, LineModel, ScrollbackBuffer};
use crate::selection::{in_order, selected_text, Anchor, SelectionRange};
use crate::surface::{DrawCommand, DrawModel};
use crate::text::{join_from, parse_color, tokenize, trim};
use crate::ui::commands::{
    lookup, CommandError, CommandKind, Outcome, COLOR_CHANGED, DEFAULT_COLOR, DIRECTORY_COLOR, DIRECTORY_NOT_FOUND,
    ERROR_COLOR, FILE_NOT_FOUND, HELP, HOME, INVALID_COLOR, NO_CURRENT_DIRECTORY, PROMPT,
    UNKNOWN_COMMAND, USAGE_CAT, USAGE_CD, USAGE_COLOR, USAGE_MKDIR, USAGE_TOUCH, VERSION,
};
use crate::ui::model::{
    columns_for, decode_key, listed, listing_of, rows_for, Key, Mode, TerminalModel, BACKGROUND,
    FONT_HEIGHT, FONT_WIDTH, LINE_HEIGHT, PAD_LEFT, SELECTION_COLOR, TEXT_TOP,
};
use vstd::prelude::*;

verus! {

/// The terminal.
pub struct Terminal {
    x: u32,
    y: u32,
    width: u32,
    height: u32,
    buffer: ScrollbackBuffer,
    selection: SelectionRange,
    command_history: Vec<String>,
    history_index: isize,
    current_command: String,
    file_system: FileSystem,
    current_color: u32,
    mode: Mode,
}

impl View for Terminal {
    type V = TerminalModel;

    closed spec fn view(&self) -> TerminalModel {
        TerminalModel {
            x: self.x,
            y: self.y,
            width: self.width,
            height: self.height,
            buffer: self.buffer@,
            selection: self.selection@,
            history: self.command_history.deep_view(),
            history_index: self.history_index as int,
            command: self.current_command@,
            fs: self.file_system@,
            color: self.current_color,
            mode: self.mode,
        }
    }
}

impl Terminal {
    /// The file tree keeps its entries in order.
    pub closed spec fn tree_wf(&self) -> bool {
        self.file_system.wf()
    }

    /// The state is one that the terminal can be in.
    pub open spec fn wf(&self) -> bool {
        self@.wf() && self.tree_wf()
    }

    /// A terminal at `(x, y)` of the surface, `width` by `height` pixels.
    pub fn new(x: u32, y: u32, width: u32, height: u32) -> (t: Terminal)
        requires
            x + width <= u32::MAX,
            y + height <= u32::MAX,
        ensures
            t.wf(),
            t@ == TerminalModel::initial(x, y, width, height),
    {
        Self::start(x, y, width, height, ScrollbackBuffer::new(Self::rows(height)))
    }

    /// A terminal whose scrollback keeps the newest `capacity` lines only.
    pub fn with_capacity(x: u32, y: u32, width: u32, height: u32, capacity: usize) -> (t: Terminal)
        requires
            x + width <= u32::MAX,
            y + height <= u32::MAX,
        ensures
            t.wf(),
            t@ == TerminalModel::initial_with(x, y, width, height, Some(capacity as nat)),
    {
        Self::start(
            x,
            y,
            width,
            height,
            ScrollbackBuffer::with_capacity(Self::rows(height), capacity),
        )
    }

    /// How many lines fit in a terminal of this height.
    fn rows(height: u32) -> (rows: usize)
        ensures
            rows == rows_for(height),
    {
        if height > TEXT_TOP {
            ((height - TEXT_TOP) / LINE_HEIGHT) as usize
        } else {
            0
        }
    }

    /// A terminal over an empty scrollback.
    fn start(x: u32, y: u32, width: u32, height: u32, buffer: ScrollbackBuffer) -> (t: Terminal)
        requires
            x + width <= u32::MAX,
            y + height <= u32::MAX,
            buffer@.wf(),
            buffer@.lines.len() == 0,
            buffer@.scroll_offset == 0,
            buffer@.visible_rows == rows_for(height),
            buffer@.dirty,
        ensures
            t.wf(),
            t@ == TerminalModel::initial_with(x, y, width, height, buffer@.capacity),
    {
        proof {
            assert(buffer@.lines =~= Seq::<LineModel>::empty());
        }
        let mut file_system = FileSystem::new();
        let ghost empty = file_system@;
        let _ = file_system.create_directory(HOME);
        let t = Terminal {
            x,
            y,
            width,
            height,
            buffer,
            selection: SelectionRange::new(),
            command_history: Vec::new(),
            history_index: -1,
            current_command: String::new(),
            file_system,
            current_color: DEFAULT_COLOR,
            mode: Mode::Normal,
        };
        proof {
            assert(t.command_history.deep_view() =~= Seq::<Seq<char>>::empty());
            lemma_current_stays(empty, empty.root.with_dir(HOME@), HOME@);
        }
        t
    }

    /// The scrollback.
    pub fn buffer(&self) -> (b: &ScrollbackBuffer)
        ensures
            b@ == self@.buffer,
    {
        &self.buffer
    }

    /// The file tree.
    pub fn file_system(&self) -> (fs: &FileSystem)
        ensures
            fs@ == self@.fs,
            fs.wf() == self.tree_wf(),
    {
        &self.file_system
    }

    /// The command line as typed so far.
    pub fn current_command(&self) -> (c: &str)
        ensures
            c@ == self@.command,
    {
        self.current_command.as_str()
    }

    /// The colour of ordinary output.
    pub fn current_color(&self) -> (c: u32)
        ensures
            c == self@.color,
    {
        self.current_color
    }

    /// What the terminal is doing with its input.
    pub fn mode(&self) -> (m: Mode)
        ensures
            m == self@.mode,
    {
        self.mode
    }

    /// The commands that were run, oldest first.
    pub fn command_history(&self) -> (h: &Vec<String>)
        ensures
            h.deep_view() == self@.history,
    {
        &self.command_history
    }

    /// Which entry of the history the command line shows; -1 for none.
    pub fn history_index(&self) -> (i: isize)
        ensures
            i == self@.history_index,
    {
        self.history_index
    }

    /// Walks the current path from the root: the directory that it leads
    /// to, or the failure that some segment of it names no subdirectory.
    pub fn get_current_directory(&self) -> (r: Result<&Directory, FsError>)
        requires
            self.tree_wf(),
        ensures
            match r {
                Ok(d) => d.wf() && self@.fs.current() == Some(d.model()),
                Err(e) => e == FsError::NotFound && self@.fs.current() is None,
            },
    {
        self.file_system.resolve_current()
    }

    /// Appends the lines of `text` to the scrollback, each in `color`.
    pub fn print(&mut self, text: &str, color: u32)
        requires
            old(self).wf(),
        ensures
            final(self).wf(),
            final(self)@ == old(self)@.printed(text@, color),
    {
        self.buffer.append_line(text, color);
    }

    fn run_cd(&mut self, words: &Vec<String>) -> (r: Outcome)
        requires
            old(self).wf(),
        ensures
            final(self).wf(),
            final(self)@ == old(self)@.cd(words.deep_view()),
            r == old(self)@.cd_outcome(words.deep_view()),
    {
        if words.len() < 2 {
            self.print(USAGE_CD, ERROR_COLOR);
            return Outcome::Failed(CommandError::InvalidArgument);
        }
        let ghost fs = self.file_system@;
        proof {
            assert(words.deep_view()[1] == words@[1]@);
            lemma_current_stays(fs, DirModel::empty(), words@[1]@);
        }
        match self.file_system.change_directory(words[1].as_str()) {
            Ok(()) => Outcome::Done,
            Err(_) => {
                let mut message = String::from_str(DIRECTORY_NOT_FOUND);
                message.append(words[1].as_str());
                message.push('\n');
                proof {
                    assert(message@ =~= DIRECTORY_NOT_FOUND@ + words@[1]@.push('\n'));
                }
                self.print(message.as_str(), ERROR_COLOR);
                Outcome::Failed(CommandError::NotFound)
            },
        }
    }

    fn run_ls(&mut self) -> (r: Outcome)
        requires
            old(self).wf(),
        ensures
            final(self).wf(),
            final(self)@ == old(self)@.ls(),
            r == old(self)@.here_outcome(),
    {
        let ghost before = self@;
        let entries = self.file_system.list_contents();
        let ghost shown = entries.deep_view();
        proof {
            let d = before.fs.current()->0;
            lemma_listing_unique(d, shown, listing_of(d));
            assert(shown.take(0) =~= Seq::<(Seq<char>, bool)>::empty());
        }
        let mut i: usize = 0;
        while i < entries.len()
            invariant
                i <= entries.len(),
                shown == entries.deep_view(),
                self.wf(),
                self@ == (TerminalModel {
                    buffer: listed(before.buffer, shown.take(i as int), before.color),
                    ..before
                }),
            decreases entries.len() - i,
        {
            let mut text = entries[i].name.clone();
            let color = if entries[i].is_directory {
                text.push('/');
                DIRECTORY_COLOR
            } else {
                self.current_color
            };
            text.push('\n');
            proof {
                assert(shown.take(i + 1).drop_last() =~= shown.take(i as int));
                assert(shown.take(i + 1).last() == shown[i as int]);
                assert(shown[i as int] == entries@[i as int].deep_view());
            }
            self.print(text.as_str(), color);
            i += 1;
        }
        proof {
            assert(shown.take(entries.len() as int) =~= shown);
        }
        Outcome::Done
    }

    fn run_mkdir(&mut self, words: &Vec<String>) -> (r: Outcome)
        requires
            old(self).wf(),
        ensures
            final(self).wf(),
            final(self)@ == old(self)@.mkdir(words.deep_view()),
            r == old(self)@.make_outcome(words.deep_view()),
    {
        if words.len() < 2 {
            self.print(USAGE_MKDIR, ERROR_COLOR);
            return Outcome::Failed(CommandError::InvalidArgument);
        }
        let ghost fs = self.file_system@;
        proof {
            assert(words.deep_view()[1] == words@[1]@);
            lemma_current_stays(fs, fs.current()->0.with_dir(words@[1]@), words@[1]@);
        }
        match self.file_system.create_directory(words[1].as_str()) {
            Ok(()) => Outcome::Done,
            Err(_) => {
                self.print(NO_CURRENT_DIRECTORY, ERROR_COLOR);
                Outcome::Failed(CommandError::NotFound)
            },
        }
    }

    fn run_touch(&mut self, words: &Vec<String>) -> (r: Outcome)
        requires
            old(self).wf(),
        ensures
            final(self).wf(),
            final(self)@ == old(self)@.touch(words.deep_view()),
            r == old(self)@.make_outcome(words.deep_view()),
    {
        if words.len() < 2 {
            self.print(USAGE_TOUCH, ERROR_COLOR);
            return Outcome::Failed(CommandError::InvalidArgument);
        }
        let ghost fs = self.file_system@;
        proof {
            assert(words.deep_view()[1] == words@[1]@);
            lemma_current_stays(
                fs,
                fs.current()->0.with_file(words@[1]@, Seq::empty()),
                words@[1]@,
            );
            assert(""@ =~= Seq::<char>::empty()) by {
                reveal_strlit("");
            }
        }
        match self.file_system.create_file(words[1].as_str(), "") {
            Ok(()) => Outcome::Done,
            Err(_) => {
                self.print(NO_CURRENT_DIRECTORY, ERROR_COLOR);
                Outcome::Failed(CommandError::NotFound)
            },
        }
    }

    fn run_cat(&mut self, words: &Vec<String>) -> (r: Outcome)
        requires
            old(self).wf(),
        ensures
            final(self).wf(),
            final(self)@ == old(self)@.cat(words.deep_view()),
            r == old(self)@.cat_outcome(words.deep_view()),
    {
        if words.len() < 2 {
            self.print(USAGE_CAT, ERROR_COLOR);
            return Outcome::Failed(CommandError::InvalidArgument);
        }
        proof {
            assert(words.deep_view()[1] == words@[1]@);
        }
        match self.file_system.read_file(words[1].as_str()) {
            Some(content) => {
                self.print(content.as_str(), self.current_color);
                Outcome::Done
            },
            None => {
                self.print(FILE_NOT_FOUND, ERROR_COLOR);
                Outcome::Failed(CommandError::NotFound)
            },
        }
    }

    fn run_echo(&mut self, words: &Vec<String>)
        requires
            old(self).wf(),
            words.len() >= 1,
        ensures
            final(self).wf(),
            final(self)@ == old(self)@.echo(words.deep_view()),
    {
        let mut text = join_from(words, 1);
        text.push('\n');
        self.print(text.as_str(), self.current_color);
    }

    fn run_color(&mut self, words: &Vec<String>) -> (r: Outcome)
        requires
            old(self).wf(),
        ensures
            final(self).wf(),
            final(self)@ == old(self)@.recolor(words.deep_view()),
            r == old(self)@.recolor_outcome(words.deep_view()),
    {
        if words.len() < 2 {
            self.print(USAGE_COLOR, ERROR_COLOR);
            return Outcome::Failed(CommandError::InvalidArgument);
        }
        proof {
            assert(words.deep_view()[1] == words@[1]@);
        }
        match parse_color(words[1].as_str()) {
            Some(color) => {
                self.current_color = color;
                self.print(COLOR_CHANGED, color);
                Outcome::Done
            },
            None => {
                self.print(INVALID_COLOR, ERROR_COLOR);
                Outcome::Failed(CommandError::InvalidArgument)
            },
        }
    }

    /// Empties the scrollback and forgets the selection.
    pub fn clear_buffer(&mut self)
        requires
            old(self).wf(),
        ensures
            final(self).wf(),
            final(self)@ == old(self)@.clear(),
    {
        self.buffer.clear();
        self.selection.clear();
    }

    /// The command dispatcher: runs `line` as a command and says what
    /// became of it. A failure is shown as an error line in the scrollback
    /// and goes no further.
    pub fn dispatch(&mut self, line: &str) -> (r: Outcome)
        requires
            old(self).wf(),
        ensures
            final(self).wf(),
            final(self)@ == old(self)@.dispatched(line@),
            r == old(self)@.outcome(line@),
    {
        let words = tokenize(line);
        if words.len() == 0 {
            return Outcome::Empty;
        }
        proof {
            assert(words.deep_view()[0] == words@[0]@);
        }
        match lookup(words[0].as_str()) {
            Some(CommandKind::Cd) => self.run_cd(&words),
            Some(CommandKind::Ls) => self.run_ls(),
            Some(CommandKind::Mkdir) => self.run_mkdir(&words),
            Some(CommandKind::Touch) => self.run_touch(&words),
            Some(CommandKind::Cat) => self.run_cat(&words),
            Some(CommandKind::Echo) => {
                self.run_echo(&words);
                Outcome::Done
            },
            Some(CommandKind::Color) => self.run_color(&words),
            Some(CommandKind::Clear) => {
                self.clear_buffer();
                Outcome::Done
            },
            Some(CommandKind::Help) => {
                self.print(HELP, self.current_color);
                Outcome::Done
            },
            Some(CommandKind::Version) => {
                self.print(VERSION, self.current_color);
                Outcome::Done
            },
            None => {
                let mut message = String::from_str(UNKNOWN_COMMAND);
                let shown = trim(line);
                message.append(shown.as_str());
                message.push('\n');
                proof {
                    assert(message@ =~= UNKNOWN_COMMAND@ + shown@.push('\n'));
                }
                self.print(message.as_str(), ERROR_COLOR);
                Outcome::Failed(CommandError::UnknownCommand)
            },
        }
    }

    /// Runs the command line, records it in the history, empties it and
    /// prints a fresh prompt.
    pub fn execute_command(&mut self)
        requires
            old(self).wf(),
        ensures
            final(self).wf(),
            final(self)@ == old(self)@.executed(),
    {
        let line = self.current_command.clone();
        let outcome = self.dispatch(line.as_str());
        if outcome != Outcome::Empty && self.command_history.len() < isize::MAX as usize {
            let ghost history = self.command_history.deep_view();
            self.command_history.push(line);
            proof {
                assert(self.command_history.deep_view() =~= history.push(line@));
            }
        }
        self.history_index = -1;
        self.current_command.clear();
        if self.mode == Mode::BrowsingHistory {
            self.mode = Mode::Normal;
        }
        self.print(PROMPT, self.current_color);
    }

    /// Puts `c` at the end of the command line and shows it.
    fn insert_char(&mut self, c: char)
        requires
            old(self).wf(),
        ensures
            final(self).wf(),
            final(self)@ == old(self)@.inserted(c),
    {
        self.current_command.push(c);
        self.buffer.echo(c, self.current_color);
    }

    /// Removes the last character of the command line, if it has one.
    fn backspace(&mut self)
        requires
            old(self).wf(),
        ensures
            final(self).wf(),
            final(self)@ == old(self)@.backspaced(),
    {
        let removed = self.current_command.pop();
        if removed.is_some() {
            self.buffer.erase();
        }
    }

    /// Ends the browsing of the history; the command line stays.
    fn resume_editing(&mut self)
        requires
            old(self).wf(),
            old(self)@.mode != Mode::Dragging,
        ensures
            final(self).wf(),
            final(self)@ == old(self)@.editing(),
    {
        self.history_index = -1;
        self.mode = Mode::Normal;
    }

    /// Shows the previous (`up`) or the next command of the history.
    fn browse_history(&mut self, up: bool)
        requires
            old(self).wf(),
            old(self)@.mode != Mode::Dragging,
        ensures
            final(self).wf(),
            final(self)@ == old(self)@.history_moved(up),
    {
        let n = self.command_history.len();
        if n == 0 {
            return ;
        }
        let target: usize = if self.history_index < 0 {
            n - 1
        } else {
            let shown = self.history_index as usize;
            if up {
                if shown > 0 {
                    shown - 1
                } else {
                    0
                }
            } else {
                if shown + 1 < n {
                    shown + 1
                } else {
                    n - 1
                }
            }
        };
        self.history_index = target as isize;
        self.current_command = self.command_history[target].clone();
        let mut shown = String::from_str(PROMPT);
        shown.append(self.current_command.as_str());
        proof {
            assert(self.command_history.deep_view()[target as int]
                == self.command_history@[target as int]@);
        }
        self.buffer.retype(shown.as_str(), self.current_color);
        self.mode = Mode::BrowsingHistory;
    }

    /// Takes a character from the keyboard.
    pub fn handle_key(&mut self, key: char)
        requires
            old(self).wf(),
        ensures
            final(self).wf(),
            final(self)@ == old(self)@.key_pressed(key),
    {
        if self.mode == Mode::Dragging {
            return ;
        }
        match decode_key(key) {
            Key::Char(c) => {
                self.resume_editing();
                self.insert_char(c);
            },
            Key::Enter => self.execute_command(),
            Key::Backspace => {
                self.resume_editing();
                self.backspace();
            },
            Key::Up => self.browse_history(true),
            Key::Down => self.browse_history(false),
            Key::Ignored => {},
        }
    }

    /// The place in the buffer under a pixel of the surface.
    pub fn cell_at(&self, mouse_x: i32, mouse_y: i32) -> (r: Option<Anchor>)
        ensures
            r == self@.cell_at(mouse_x, mouse_y),
    {
        let dx: i64 = mouse_x as i64 - self.x as i64 - PAD_LEFT as i64;
        let dy: i64 = mouse_y as i64 - self.y as i64 - TEXT_TOP as i64;
        if dy < 0 {
            return None;
        }
        let row: usize = (dy / LINE_HEIGHT as i64) as usize;
        let column: usize = if dx < 0 {
            0
        } else {
            (dx / FONT_WIDTH as i64) as usize
        };
        match row.checked_add(self.buffer.scroll_offset()) {
            Some(line) => Some(Anchor { column, line }),
            None => None,
        }
    }

    /// Begins a selection at the place under a pixel, if the buffer has a
    /// line there.
    pub fn start_selection(&mut self, mouse_x: i32, mouse_y: i32)
        requires
            old(self).wf(),
        ensures
            final(self).wf(),
            final(self)@ == old(self)@.selection_started(mouse_x, mouse_y),
    {
        match self.cell_at(mouse_x, mouse_y) {
            Some(at) => {
                self.selection.begin(at.column, at.line, self.buffer.len());
                self.buffer.mark_dirty();
            },
            None => {},
        }
    }

    /// Moves the end of the selection to the place under a pixel, if the
    /// buffer has a line there and a selection was begun.
    pub fn update_selection(&mut self, mouse_x: i32, mouse_y: i32)
        requires
            old(self).wf(),
        ensures
            final(self).wf(),
            final(self)@ == old(self)@.selection_updated(mouse_x, mouse_y),
    {
        match self.cell_at(mouse_x, mouse_y) {
            Some(at) => {
                self.selection.extend(at.column, at.line, self.buffer.len());
                self.buffer.mark_dirty();
            },
            None => {},
        }
    }

    /// Takes a pointer sample: where the pointer is and which buttons are
    /// held, the first button in the lowest bit.
    pub fn handle_mouse(&mut self, mouse_x: i32, mouse_y: i32, mouse_buttons: u8)
        requires
            old(self).wf(),
        ensures
            final(self).wf(),
            final(self)@ == old(self)@.pointer_moved(mouse_x, mouse_y, mouse_buttons),
    {
        let held = mouse_buttons & 1 != 0;
        if self.mode == Mode::Dragging {
            if held {
                self.update_selection(mouse_x, mouse_y);
            } else {
                self.mode = Mode::Normal;
            }
        } else if held {
            self.mode = Mode::Dragging;
            self.history_index = -1;
            self.start_selection(mouse_x, mouse_y);
        }
    }

    /// The selected text. The terminal stays as it is.
    pub fn copy_selection(&mut self) -> (r: String)
        ensures
            final(self)@ == old(self)@,
            final(self).tree_wf() == old(self).tree_wf(),
            old(self).wf() ==> final(self).wf(),
            r@ == selected_text(old(self)@.buffer.lines, old(self)@.selection),
    {
        self.selection.extract_text(&self.buffer)
    }

    /// Types `text` into the command line; each line break in it runs the
    /// command line.
    pub fn paste_clipboard(&mut self, text: &str)
        requires
            old(self).wf(),
        ensures
            final(self).wf(),
            final(self)@ == old(self)@.pasted(text@),
    {
        let ghost before = self@;
        proof {
            assert(text@.take(0) =~= Seq::<char>::empty());
        }
        for c in it: text.chars()
            invariant
                it.seq() == text@,
                self.wf(),
                self@ == before.pasted(text@.take(it.index() as int)),
        {
            proof {
                let seen = text@.take(it.index() + 1);
                assert(seen.drop_last() =~= text@.take(it.index() as int));
                assert(seen.last() == c);
            }
            if c == '\n' {
                self.execute_command();
            } else {
                self.insert_char(c);
            }
        }
        proof {
            assert(text@.take(text@.len() as int) =~= text@);
        }
    }

    /// Scrolls the view by `delta` lines, downwards if positive, and stops
    /// at the first and at the last screenful.
    pub fn scroll(&mut self, delta: isize)
        requires
            old(self).wf(),
        ensures
            final(self).wf(),
            final(self)@ == (TerminalModel {
                buffer: old(self)@.buffer.scrolled(delta as int),
                ..old(self)@
            }),
            final(self)@.buffer.lines == old(self)@.buffer.lines,
            final(self)@.buffer.scroll_offset == clamp(
                old(self)@.buffer.scroll_offset + delta,
                0,
                old(self)@.buffer.max_offset() as int,
            ),
            old(self)@.buffer.scroll_offset + delta <= 0 ==> final(self)@.buffer.scroll_offset
                == 0,
            old(self)@.buffer.scroll_offset + delta >= old(self)@.buffer.max_offset()
                ==> final(self)@.buffer.scroll_offset == old(self)@.buffer.max_offset(),
    {
        self.buffer.scroll(delta);
    }

    /// Says whether the screen is out of date, and records that it is
    /// about to be drawn.
    pub fn take_dirty(&mut self) -> (dirty: bool)
        requires
            old(self).wf(),
        ensures
            final(self).wf(),
            dirty == old(self)@.buffer.dirty,
            final(self)@ == (TerminalModel {
                buffer: BufferModel { dirty: false, ..old(self)@.buffer },
                ..old(self)@
            }),
    {
        let dirty = self.buffer.is_dirty();
        self.buffer.mark_clean();
        dirty
    }

    /// The requests that draw the terminal as it is.
    pub fn draw(&self) -> (r: Vec<DrawCommand>)
        requires
            self.wf(),
        ensures
            r.deep_view() == self@.frame(),
    {
        let mut out: Vec<DrawCommand> = Vec::new();
        out.push(
            DrawCommand::FillRect {
                x: self.x,
                y: self.y,
                width: self.width,
                height: self.height,
                color: BACKGROUND,
            },
        );
        let ghost head = out.deep_view();
        proof {
            assert(head =~= seq![
                DrawModel::FillRect {
                    x: self.x,
                    y: self.y,
                    width: self.width,
                    height: self.height,
                    color: BACKGROUND,
                },
            ]);
        }
        let columns: usize = if self.width > PAD_LEFT {
            ((self.width - PAD_LEFT) / FONT_WIDTH) as usize
        } else {
            0
        };
        let lines = self.buffer.visible_slice(self.buffer.visible_rows());
        let rows: usize = if columns > 0 {
            lines.len()
        } else {
            0
        };
        let ghost model = self@;
        proof {
            assert(lines.deep_view() == model.visible());
            assert(rows == model.rows_drawn());
            assert(head + model.texts(0) =~= head);
            assert(lines@.len() == lines.deep_view().len());
        }
        let mut r: usize = 0;
        while r < rows
            invariant
                r <= rows <= lines.len(),
                model == self@,
                model.wf(),
                rows > 0 ==> columns_for(model.width) > 0,
                lines.deep_view() == model.visible(),
                lines@.len() <= rows_for(model.height),
                out.deep_view() == head + model.texts(r as int),
            decreases rows - r,
        {
            proof {
                lemma_row_fits(model.height, r as int);
            }
            let ghost so_far = out.deep_view();
            out.push(
                DrawCommand::Text {
                    x: self.x + PAD_LEFT,
                    y: self.y + TEXT_TOP + (r as u32) * LINE_HEIGHT,
                    text: lines[r].text.clone(),
                    color: lines[r].color,
                },
            );
            proof {
                assert(lines.deep_view()[r as int] == lines@[r as int].deep_view());
                assert(out.deep_view() =~= so_far.push(model.row_text(r as int)));
                assert(head + model.texts(r + 1) =~= (head + model.texts(r as int)).push(
                    model.row_text(r as int),
                ));
            }
            r += 1;
        }
        let ghost body = out.deep_view();
        proof {
            assert(body + model.highlights(0) =~= body);
        }
        match self.selection.normalized() {
            Some((lo, hi)) => {
                let offset = self.buffer.scroll_offset();
                let total = self.buffer.len();
                let ghost ends = model.selection->0;
                let mut r: usize = 0;
                while r < rows
                    invariant
                        r <= rows <= lines.len(),
                        model == self@,
                        model.wf(),
                        rows > 0 ==> columns_for(model.width) > 0,
                        columns == columns_for(model.width),
                        offset == model.buffer.scroll_offset,
                        model.selection == Some(ends),
                        (lo, hi) == in_order(ends.0, ends.1),
                        lines.deep_view() == model.visible(),
                        lines@.len() <= rows_for(model.height),
                        offset + lines@.len() <= total,
                        out.deep_view() == body + model.highlights(r as int),
                    decreases rows - r,
                {
                    proof {
                        lemma_row_fits(model.height, r as int);
                    }
                    let line = offset + r;
                    let len = lines[r].text.as_str().unicode_len();
                    let from = if line == lo.line {
                        lo.column
                    } else {
                        0
                    };
                    let to = if line == hi.line {
                        hi.column
                    } else {
                        len
                    };
                    let first = smaller(smaller(from, len), columns);
                    let end = smaller(smaller(to, len), columns);
                    proof {
                        assert(lines.deep_view()[r as int] == lines@[r as int].deep_view());
                    }
                    if lo.line <= line && line <= hi.line && first < end {
                        let ghost so_far = out.deep_view();
                        let rect = DrawCommand::FillRect {
                            x: self.x + PAD_LEFT + (first as u32) * FONT_WIDTH,
                            y: self.y + TEXT_TOP + (r as u32) * LINE_HEIGHT,
                            width: ((end - first) as u32) * FONT_WIDTH,
                            height: FONT_HEIGHT,
                            color: SELECTION_COLOR,
                        };
                        proof {
                            assert(model.row_columns(r as int) == Some((first as int, end as int)));
                        }
                        out.push(rect);
                        proof {
                            assert(out.deep_view() =~= so_far.push(rect.deep_view()));
                            assert(body + model.highlights(r + 1) =~= (body + model.highlights(
                                r as int,
                            )).push(rect.deep_view()));
                        }
                    } else {
                        proof {
                            assert(model.row_columns(r as int) is None);
                        }
                    }
                    r += 1;
                }
            },
            None => {
                proof {
                    lemma_no_selection_no_highlight(model, rows as int);
                }
            },
        }
        let ghost painted = out.deep_view();
        out.push(DrawCommand::Present);
        proof {
            assert(out.deep_view() =~= painted + seq![DrawModel::Present]);
            assert(out.deep_view() =~= model.frame());
        }
        out
    }
}

/// The smaller of two numbers.
fn smaller(a: usize, b: usize) -> (r: usize)
    ensures
        r == clamp(a as int, 0, b as int),
{
    if a < b {
        a
    } else {
        b
    }
}

/// A row of the terminal lies within its height.
proof fn lemma_row_fits(height: u32, r: int)
    requires
        0 <= r < rows_for(height),
    ensures
        TEXT_TOP + r * LINE_HEIGHT + LINE_HEIGHT <= height,
{
}

proof fn lemma_no_selection_no_highlight(model: TerminalModel, n: int)
    requires
        model.selection is None,
    ensures
        model.highlights(n) == Seq::<DrawModel>::empty(),
    decreases n,
{
    if n > 0 {
        lemma_no_selection_no_highlight(model, n - 1);
    }
}

} // verus!
