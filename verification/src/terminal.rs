//! The character-cell terminal: a fixed grid of 25 rows and 80 columns
//! with a cursor, an input line and a handful of commands.

use crate::surface::{DrawCommand, DrawModel};
use crate::text::{str_equal, trim, trimmed};
use vstd::prelude::*;

verus! {

/// Columns of the grid.
pub const TERM_WIDTH: u32 = 80;

/// Rows of the grid.
pub const TERM_HEIGHT: u32 = 25;

/// Width of a cell, in pixels.
pub const CHAR_WIDTH: u32 = 12;

/// Height of a cell, in pixels.
pub const CHAR_HEIGHT: u32 = 16;

/// Left edge of the grid on the surface.
pub const ORIGIN_X: u32 = 20;

/// Top edge of the grid on the surface.
pub const ORIGIN_Y: u32 = 40;

/// Width of the surface, in pixels.
pub const SCREEN_WIDTH: u32 = 800;

/// Height of the surface, in pixels.
pub const SCREEN_HEIGHT: u32 = 600;

/// The most characters that the input line takes.
pub const INPUT_LIMIT: usize = 79;

pub const PROMPT: &'static str = "$ ";

pub const HELP_REPLY: &'static str =
    "\nAvailable commands:\n  help     - Show this help message\n  ls       - List files\n  clear    - Clear screen\n  nyan     - Show Nyan Cat\n  version  - Show NyanNix version\n";

pub const LS_REPLY: &'static str = "\nNyanNix File System:\n  boot/\n  home/\n  nya/\n";

pub const NYAN_REPLY: &'static str = "\n  /\\___/\\  ~\n ( ^ . ^ )~\n  > ' ' <\n   ~~~~~\n";

pub const VERSION_REPLY: &'static str = "\nNyanNix v1.0.0\n";

/// What comes before the line in the reply to a command that the
/// terminal does not know.
pub const UNKNOWN_REPLY: &'static str = "\nUnknown command: ";

/// A row of blanks.
pub open spec fn blank_row() -> Seq<char> {
    Seq::new(TERM_WIDTH as nat, |x: int| ' ')
}

/// `s` without its leading blanks.
pub open spec fn strip_blanks(s: Seq<char>) -> Seq<char>
    decreases s.len(),
{
    if s.len() > 0 && s[0] == ' ' {
        strip_blanks(s.drop_first())
    } else {
        s
    }
}

/// What the terminal writes in reply to a command other than `clear`.
pub open spec fn reply(command: Seq<char>) -> Seq<char> {
    let name = trimmed(command);
    if name == "help"@ {
        HELP_REPLY@
    } else if name == "ls"@ {
        LS_REPLY@
    } else if name == "nyan"@ {
        NYAN_REPLY@
    } else if name == "version"@ {
        VERSION_REPLY@
    } else if name.len() == 0 {
        Seq::empty()
    } else {
        UNKNOWN_REPLY@ + command.push('\n')
    }
}

/// The character-cell terminal as mathematics.
pub struct GridModel {
    /// The rows, top to bottom; each holds one character per column.
    pub cells: Seq<Seq<char>>,
    pub cursor_x: nat,
    pub cursor_y: nat,
    pub fg_color: u32,
    pub bg_color: u32,
    /// The input line as typed so far.
    pub input: Seq<char>,
}

impl GridModel {
    /// The grid has its 25 rows of 80 columns, the cursor is on it, and
    /// the input line is within its limit.
    pub open spec fn wf(self) -> bool {
        &&& self.cells.len() == TERM_HEIGHT
        &&& forall|y: int| 0 <= y < TERM_HEIGHT ==> (#[trigger] self.cells[y]).len() == TERM_WIDTH
        &&& self.cursor_x < TERM_WIDTH
        &&& self.cursor_y < TERM_HEIGHT
        &&& self.input.len() <= INPUT_LIMIT
    }

    /// An empty grid with the cursor in its top left corner, pink on
    /// black.
    pub open spec fn blank() -> GridModel {
        GridModel {
            cells: Seq::new(TERM_HEIGHT as nat, |y: int| blank_row()),
            cursor_x: 0,
            cursor_y: 0,
            fg_color: 0xFF69B4,
            bg_color: 0x000000,
            input: Seq::empty(),
        }
    }

    /// With every row moved up by one, the top row gone and the bottom
    /// row blank.
    pub open spec fn scrolled_up(self) -> GridModel {
        GridModel { cells: self.cells.drop_first().push(blank_row()), ..self }
    }

    /// With the cursor at the start of the next row; on the last row the
    /// grid scrolls up instead.
    pub open spec fn new_line(self) -> GridModel {
        if self.cursor_y + 1 < TERM_HEIGHT {
            GridModel { cursor_x: 0, cursor_y: self.cursor_y + 1, ..self }
        } else {
            GridModel { cursor_x: 0, ..self }.scrolled_up()
        }
    }

    /// With `c` in the cell under the cursor.
    pub open spec fn put(self, c: char) -> GridModel {
        GridModel {
            cells: self.cells.update(
                self.cursor_y as int,
                self.cells[self.cursor_y as int].update(self.cursor_x as int, c),
            ),
            ..self
        }
    }

    /// After `c` was written: a line feed starts a new line, a carriage
    /// return goes back to the start of the row, a backspace moves the
    /// cursor one cell to the left, and any other character fills the cell
    /// under the cursor and moves it on, to a new line at the end of the
    /// row.
    pub open spec fn wrote(self, c: char) -> GridModel {
        if c == '\n' {
            self.new_line()
        } else if c == '\r' {
            GridModel { cursor_x: 0, ..self }
        } else if c == '\u{08}' {
            if self.cursor_x > 0 {
                GridModel { cursor_x: (self.cursor_x - 1) as nat, ..self }
            } else {
                self
            }
        } else {
            let filled = GridModel { cursor_x: self.cursor_x + 1, ..self.put(c) };
            if filled.cursor_x >= TERM_WIDTH {
                filled.new_line()
            } else {
                filled
            }
        }
    }

    /// After the characters of `s` were written, first to last.
    pub open spec fn wrote_all(self, s: Seq<char>) -> GridModel
        decreases s.len(),
    {
        if s.len() == 0 {
            self
        } else {
            self.wrote_all(s.drop_last()).wrote(s.last())
        }
    }

    /// With the cursor one cell to the left and that cell blank; the same
    /// at the start of a row.
    pub open spec fn backspaced(self) -> GridModel {
        if self.cursor_x > 0 {
            GridModel { cursor_x: (self.cursor_x - 1) as nat, ..self }.put(' ')
        } else {
            self
        }
    }

    /// With every cell blank and the cursor in the top left corner.
    pub open spec fn cleared(self) -> GridModel {
        GridModel {
            cells: Seq::new(TERM_HEIGHT as nat, |y: int| blank_row()),
            cursor_x: 0,
            cursor_y: 0,
            ..self
        }
    }

    /// After the input line was run as a command: the line is emptied,
    /// `clear` blanks the grid, any other command writes its reply, and a
    /// prompt follows.
    pub open spec fn processed(self) -> GridModel {
        let command = strip_blanks(self.input);
        let base = GridModel { input: Seq::empty(), ..self };
        if trimmed(command) == "clear"@ {
            base.cleared().wrote_all(PROMPT@)
        } else {
            base.wrote_all(reply(command)).wrote_all(PROMPT@)
        }
    }

    /// After a character came in: a line feed or carriage return runs the
    /// input line, a backspace takes its last character back, and an ASCII
    /// character is added to it and shown while there is room. Anything
    /// else is dropped.
    pub open spec fn input_key(self, c: char) -> GridModel {
        if c == '\n' || c == '\r' {
            self.wrote('\n').processed()
        } else if c == '\u{08}' {
            if self.input.len() > 0 {
                GridModel { input: self.input.drop_last(), ..self }.backspaced()
            } else {
                self
            }
        } else if self.input.len() < INPUT_LIMIT && (c as int) <= 0x7f {
            GridModel { input: self.input.push(c), ..self }.wrote(c)
        } else {
            self
        }
    }

    /// The request that draws the glyph of cell `k`, counted row by row,
    /// if the cell is not blank.
    pub open spec fn glyph(self, k: int) -> Option<DrawModel> {
        let x = k % (TERM_WIDTH as int);
        let y = k / (TERM_WIDTH as int);
        if self.cells[y][x] != ' ' {
            Some(
                DrawModel::FillRect {
                    x: (ORIGIN_X + x * CHAR_WIDTH + 2) as u32,
                    y: (ORIGIN_Y + y * CHAR_HEIGHT + 2) as u32,
                    width: (CHAR_WIDTH - 4) as u32,
                    height: (CHAR_HEIGHT - 4) as u32,
                    color: self.fg_color,
                },
            )
        } else {
            None
        }
    }

    /// The requests that draw the glyphs of the first `k` cells.
    pub open spec fn glyphs(self, k: int) -> Seq<DrawModel>
        decreases k,
    {
        if k <= 0 {
            Seq::empty()
        } else {
            match self.glyph(k - 1) {
                Some(g) => self.glyphs(k - 1).push(g),
                None => self.glyphs(k - 1),
            }
        }
    }

    /// The request that paints the background of the grid.
    pub open spec fn backdrop(self) -> DrawModel {
        DrawModel::FillRect {
            x: ORIGIN_X,
            y: ORIGIN_Y,
            width: (TERM_WIDTH * CHAR_WIDTH) as u32,
            height: (TERM_HEIGHT * CHAR_HEIGHT) as u32,
            color: self.bg_color,
        }
    }

    /// One frame of the whole grid.
    pub open spec fn frame(self) -> Seq<DrawModel> {
        seq![self.backdrop()] + self.glyphs(TERM_WIDTH * TERM_HEIGHT) + seq![DrawModel::Present]
    }

    /// The requests that redraw the cell in column `x` of row `y`.
    pub open spec fn cell_frame(self, x: int, y: int) -> Seq<DrawModel> {
        let back = DrawModel::FillRect {
            x: (ORIGIN_X + x * CHAR_WIDTH) as u32,
            y: (ORIGIN_Y + y * CHAR_HEIGHT) as u32,
            width: CHAR_WIDTH,
            height: CHAR_HEIGHT,
            color: self.bg_color,
        };
        match self.glyph(y * TERM_WIDTH + x) {
            Some(g) => seq![back, g, DrawModel::Present],
            None => seq![back, DrawModel::Present],
        }
    }

    /// The first frame: the whole surface in the background colour, then
    /// the grid.
    pub open spec fn first_frame(self) -> Seq<DrawModel> {
        seq![
            DrawModel::FillRect {
                x: 0,
                y: 0,
                width: SCREEN_WIDTH,
                height: SCREEN_HEIGHT,
                color: self.bg_color,
            },
        ] + self.frame()
    }
}

/// The character-cell terminal.
pub struct Terminal {
    cursor_x: u32,
    cursor_y: u32,
    fg_color: u32,
    bg_color: u32,
    buffer: [[char; 80]; 25],
    input_buffer: [char; 80],
    input_pos: usize,
}

impl View for Terminal {
    type V = GridModel;

    closed spec fn view(&self) -> GridModel {
        GridModel {
            cells: Seq::new(TERM_HEIGHT as nat, |y: int| self.buffer@[y]@),
            cursor_x: self.cursor_x as nat,
            cursor_y: self.cursor_y as nat,
            fg_color: self.fg_color,
            bg_color: self.bg_color,
            input: self.input_buffer@.take(self.input_pos as int),
        }
    }
}

impl Terminal {
    /// The input line ends within its buffer.
    pub closed spec fn input_in_bounds(&self) -> bool {
        self.input_pos <= INPUT_LIMIT
    }

    /// The cursor is on the grid and the input line within its limit.
    pub open spec fn wf(&self) -> bool {
        self@.wf() && self.input_in_bounds()
    }

    /// A terminal with an empty grid.
    pub fn new() -> (t: Terminal)
        ensures
            t.wf(),
            t@ == GridModel::blank(),
    {
        let t = Terminal {
            cursor_x: 0,
            cursor_y: 0,
            fg_color: 0xFF69B4,
            bg_color: 0x000000,
            buffer: [[' '; 80]; 25],
            input_buffer: [' '; 80],
            input_pos: 0,
        };
        proof {
            assert forall|y: int| 0 <= y < 25 implies #[trigger] t@.cells[y] == blank_row() by {
                assert(t.buffer@[y]@ =~= blank_row());
            }
            assert(t@.cells =~= GridModel::blank().cells);
            assert(t@.input =~= Seq::<char>::empty());
        }
        t
    }

    /// The cursor's column and row.
    pub fn cursor(&self) -> (r: (u32, u32))
        ensures
            r.0 == self@.cursor_x,
            r.1 == self@.cursor_y,
    {
        (self.cursor_x, self.cursor_y)
    }

    /// The character in column `x` of row `y`.
    pub fn cell(&self, x: u32, y: u32) -> (c: char)
        requires
            x < TERM_WIDTH,
            y < TERM_HEIGHT,
        ensures
            c == self@.cells[y as int][x as int],
    {
        self.buffer[y as usize][x as usize]
    }

    /// The input line as typed so far.
    pub fn input(&self) -> (s: String)
        requires
            self.wf(),
        ensures
            s@ == self@.input,
    {
        let mut s = String::new();
        let mut i: usize = 0;
        while i < self.input_pos
            invariant
                i <= self.input_pos <= INPUT_LIMIT,
                s@ == self.input_buffer@.take(i as int),
            decreases self.input_pos - i,
        {
            s.push(self.input_buffer[i]);
            proof {
                assert(self.input_buffer@.take(i + 1) =~= self.input_buffer@.take(i as int).push(
                    self.input_buffer@[i as int],
                ));
            }
            i += 1;
        }
        s
    }

    /// Moves every row up by one and blanks the last.
    pub fn scroll_up(&mut self)
        requires
            old(self).wf(),
        ensures
            final(self).wf(),
            final(self)@ == old(self)@.scrolled_up(),
    {
        let ghost before = self@;
        let mut y: usize = 1;
        while y < 25
            invariant
                1 <= y <= 25,
                self.wf(),
                self.cursor_x == old(self).cursor_x,
                self.cursor_y == old(self).cursor_y,
                self.fg_color == old(self).fg_color,
                self.bg_color == old(self).bg_color,
                self.input_buffer == old(self).input_buffer,
                self.input_pos == old(self).input_pos,
                forall|r: int| 0 <= r < y - 1 ==> self.buffer@[r]@ == before.cells[r + 1],
                forall|r: int| y - 1 <= r < 25 ==> self.buffer@[r]@ == before.cells[r],
            decreases 25 - y,
        {
            self.buffer[y - 1] = self.buffer[y];
            y += 1;
        }
        self.buffer[24] = [' '; 80];
        proof {
            assert(self.buffer@[24]@ =~= blank_row());
            assert(self@.cells =~= before.cells.drop_first().push(blank_row()));
            assert(self@.input =~= before.input);
        }
    }

    /// Starts a new line.
    pub fn new_line(&mut self)
        requires
            old(self).wf(),
        ensures
            final(self).wf(),
            final(self)@ == old(self)@.new_line(),
    {
        self.cursor_x = 0;
        if self.cursor_y < TERM_HEIGHT - 1 {
            self.cursor_y += 1;
        } else {
            self.scroll_up();
        }
    }

    fn put(&mut self, c: char)
        requires
            old(self).wf(),
        ensures
            final(self).wf(),
            final(self)@ == old(self)@.put(c),
    {
        let ghost before = self@;
        self.buffer[self.cursor_y as usize][self.cursor_x as usize] = c;
        proof {
            assert(self@.cells =~= before.cells.update(
                before.cursor_y as int,
                before.cells[before.cursor_y as int].update(before.cursor_x as int, c),
            ));
        }
    }

    /// Writes one character at the cursor.
    pub fn write_char(&mut self, c: char)
        requires
            old(self).wf(),
        ensures
            final(self).wf(),
            final(self)@ == old(self)@.wrote(c),
    {
        if c == '\n' {
            self.new_line();
        } else if c == '\r' {
            self.cursor_x = 0;
        } else if c == '\u{08}' {
            if self.cursor_x > 0 {
                self.cursor_x -= 1;
            }
        } else {
            self.put(c);
            self.cursor_x += 1;
            if self.cursor_x >= TERM_WIDTH {
                // The cursor has left the row; the new line takes it to column 0.
                self.cursor_x = TERM_WIDTH - 1;
                let ghost parked = self@;
                self.new_line();
                proof {
                    let filled = GridModel { cursor_x: old(self)@.cursor_x + 1, ..old(self)@.put(c) };
                    assert(parked.new_line() == filled.new_line());
                }
            }
        }
    }

    /// Takes the cursor one cell back and blanks that cell.
    pub fn backspace(&mut self)
        requires
            old(self).wf(),
        ensures
            final(self).wf(),
            final(self)@ == old(self)@.backspaced(),
    {
        if self.cursor_x > 0 {
            self.cursor_x -= 1;
            self.put(' ');
        }
    }

    /// Writes a text, character by character.
    pub fn write_string(&mut self, s: &str)
        requires
            old(self).wf(),
        ensures
            final(self).wf(),
            final(self)@ == old(self)@.wrote_all(s@),
    {
        let ghost before = self@;
        proof {
            assert(s@.take(0) =~= Seq::<char>::empty());
        }
        for c in it: s.chars()
            invariant
                it.seq() == s@,
                self.wf(),
                self@ == before.wrote_all(s@.take(it.index() as int)),
        {
            proof {
                let seen = s@.take(it.index() + 1);
                assert(seen.drop_last() =~= s@.take(it.index() as int));
                assert(seen.last() == c);
            }
            self.write_char(c);
        }
        proof {
            assert(s@.take(s@.len() as int) =~= s@);
        }
    }

    /// Blanks the grid and takes the cursor to its top left corner.
    pub fn clear(&mut self)
        requires
            old(self).wf(),
        ensures
            final(self).wf(),
            final(self)@ == old(self)@.cleared(),
    {
        let ghost before = self@;
        self.buffer = [[' '; 80]; 25];
        self.cursor_x = 0;
        self.cursor_y = 0;
        proof {
            assert forall|y: int| 0 <= y < 25 implies #[trigger] self@.cells[y] == blank_row() by {
                assert(self.buffer@[y]@ =~= blank_row());
            }
            assert(self@.cells =~= before.cleared().cells);
        }
    }

    /// Takes the input line, without its leading blanks, and empties it.
    fn take_command(&mut self) -> (command: String)
        requires
            old(self).wf(),
        ensures
            final(self).wf(),
            command@ == strip_blanks(old(self)@.input),
            final(self)@ == (GridModel { input: Seq::empty(), ..old(self)@ }),
    {
        let ghost typed = self@.input;
        let ghost before = self@;
        let mut start: usize = 0;
        proof {
            assert(typed.skip(0) =~= typed);
        }
        while start < self.input_pos && self.input_buffer[start] == ' '
            invariant
                start <= self.input_pos <= INPUT_LIMIT,
                typed == self.input_buffer@.take(self.input_pos as int),
                strip_blanks(typed) == strip_blanks(typed.skip(start as int)),
            decreases self.input_pos - start,
        {
            proof {
                assert(typed.skip(start as int)[0] == self.input_buffer@[start as int]);
                assert(typed.skip(start as int).drop_first() =~= typed.skip(start + 1));
            }
            start += 1;
        }
        let mut command = String::new();
        let mut i: usize = start;
        while i < self.input_pos
            invariant
                start <= i <= self.input_pos <= INPUT_LIMIT,
                typed == self.input_buffer@.take(self.input_pos as int),
                command@ == typed.subrange(start as int, i as int),
            decreases self.input_pos - i,
        {
            command.push(self.input_buffer[i]);
            proof {
                assert(typed.subrange(start as int, i + 1) =~= typed.subrange(
                    start as int,
                    i as int,
                ).push(typed[i as int]));
            }
            i += 1;
        }
        proof {
            let rest = typed.skip(start as int);
            assert(typed.subrange(start as int, self.input_pos as int) =~= rest);
            if rest.len() > 0 {
                assert(rest[0] == self.input_buffer@[start as int]);
            }
        }
        self.input_pos = 0;
        self.input_buffer = [' '; 80];
        proof {
            assert(self@.input =~= Seq::<char>::empty());
            assert(self@.cells =~= before.cells);
        }
        command
    }

    /// Runs the input line as a command and writes a prompt.
    pub fn process_command(&mut self)
        requires
            old(self).wf(),
        ensures
            final(self).wf(),
            final(self)@ == old(self)@.processed(),
    {
        let command = self.take_command();
        let name = trim(command.as_str());
        if str_equal(name.as_str(), "clear") {
            self.clear();
        } else if str_equal(name.as_str(), "help") {
            self.write_string(HELP_REPLY);
        } else if str_equal(name.as_str(), "ls") {
            self.write_string(LS_REPLY);
        } else if str_equal(name.as_str(), "nyan") {
            self.write_string(NYAN_REPLY);
        } else if str_equal(name.as_str(), "version") {
            self.write_string(VERSION_REPLY);
        } else if name.as_str().unicode_len() == 0 {
            proof {
                assert(name@ =~= Seq::<char>::empty());
            }
        } else {
            let mut text = String::from_str(UNKNOWN_REPLY);
            text.append(command.as_str());
            text.push('\n');
            proof {
                assert(text@ =~= UNKNOWN_REPLY@ + command@.push('\n'));
            }
            self.write_string(text.as_str());
        }
        self.write_string(PROMPT);
    }

    /// Takes a character from the console.
    pub fn handle_input(&mut self, c: char)
        requires
            old(self).wf(),
        ensures
            final(self).wf(),
            final(self)@ == old(self)@.input_key(c),
    {
        let ghost before = self@;
        if c == '\n' || c == '\r' {
            self.write_char('\n');
            self.process_command();
        } else if c == '\u{08}' {
            if self.input_pos > 0 {
                self.input_pos -= 1;
                self.input_buffer[self.input_pos] = ' ';
                proof {
                    assert(self@.input =~= before.input.drop_last());
                    assert(self@.cells =~= before.cells);
                }
                self.backspace();
            }
        } else if self.input_pos < INPUT_LIMIT && c <= '\u{7f}' {
            self.input_buffer[self.input_pos] = c;
            self.input_pos += 1;
            proof {
                assert(self@.input =~= before.input.push(c));
                assert(self@.cells =~= before.cells);
            }
            self.write_char(c);
        }
    }

    /// The request that draws the glyph of cell `k`, counted row by row,
    /// if the cell is not blank.
    fn glyph(&self, k: usize) -> (r: Option<DrawCommand>)
        requires
            self.wf(),
            k < TERM_WIDTH * TERM_HEIGHT,
        ensures
            match r {
                Some(g) => self@.glyph(k as int) == Some(g.deep_view()),
                None => self@.glyph(k as int) is None,
            },
    {
        let x: usize = k % 80;
        let y: usize = k / 80;
        if self.buffer[y][x] != ' ' {
            Some(
                DrawCommand::FillRect {
                    x: ORIGIN_X + (x as u32) * CHAR_WIDTH + 2,
                    y: ORIGIN_Y + (y as u32) * CHAR_HEIGHT + 2,
                    width: CHAR_WIDTH - 4,
                    height: CHAR_HEIGHT - 4,
                    color: self.fg_color,
                },
            )
        } else {
            None
        }
    }

    /// The requests that draw the whole grid.
    pub fn redraw(&self) -> (r: Vec<DrawCommand>)
        requires
            self.wf(),
        ensures
            r.deep_view() == self@.frame(),
    {
        let mut out: Vec<DrawCommand> = Vec::new();
        out.push(
            DrawCommand::FillRect {
                x: ORIGIN_X,
                y: ORIGIN_Y,
                width: TERM_WIDTH * CHAR_WIDTH,
                height: TERM_HEIGHT * CHAR_HEIGHT,
                color: self.bg_color,
            },
        );
        let ghost head = out.deep_view();
        proof {
            assert(head =~= seq![self@.backdrop()]);
            assert(head + self@.glyphs(0) =~= head);
        }
        let mut k: usize = 0;
        while k < 2000
            invariant
                k <= 2000,
                self.wf(),
                out.deep_view() == head + self@.glyphs(k as int),
            decreases 2000 - k,
        {
            let ghost so_far = out.deep_view();
            match self.glyph(k) {
                Some(g) => {
                    let ghost shown = g.deep_view();
                    out.push(g);
                    proof {
                        assert(out.deep_view() =~= so_far.push(shown));
                        assert(head + self@.glyphs(k + 1) =~= (head + self@.glyphs(k as int)).push(
                            shown,
                        ));
                    }
                },
                None => {},
            }
            k += 1;
        }
        let ghost painted = out.deep_view();
        out.push(DrawCommand::Present);
        proof {
            assert(out.deep_view() =~= painted + seq![DrawModel::Present]);
        }
        out
    }

    /// The requests that redraw one cell.
    pub fn draw_char(&self, x: u32, y: u32) -> (r: Vec<DrawCommand>)
        requires
            self.wf(),
            x < TERM_WIDTH,
            y < TERM_HEIGHT,
        ensures
            r.deep_view() == self@.cell_frame(x as int, y as int),
    {
        let mut out: Vec<DrawCommand> = Vec::new();
        let back = DrawCommand::FillRect {
            x: ORIGIN_X + x * CHAR_WIDTH,
            y: ORIGIN_Y + y * CHAR_HEIGHT,
            width: CHAR_WIDTH,
            height: CHAR_HEIGHT,
            color: self.bg_color,
        };
        let ghost back_model = back.deep_view();
        out.push(back);
        match self.glyph((y * TERM_WIDTH + x) as usize) {
            Some(g) => {
                let ghost shown = g.deep_view();
                out.push(g);
                out.push(DrawCommand::Present);
                proof {
                    assert(out.deep_view() =~= seq![back_model, shown, DrawModel::Present]);
                }
            },
            None => {
                out.push(DrawCommand::Present);
                proof {
                    assert(out.deep_view() =~= seq![back_model, DrawModel::Present]);
                }
            },
        }
        out
    }

    /// The requests that bring the terminal onto a fresh surface.
    pub fn init(&self) -> (r: Vec<DrawCommand>)
        requires
            self.wf(),
        ensures
            r.deep_view() == self@.first_frame(),
    {
        let mut out: Vec<DrawCommand> = Vec::new();
        out.push(
            DrawCommand::FillRect {
                x: 0,
                y: 0,
                width: SCREEN_WIDTH,
                height: SCREEN_HEIGHT,
                color: self.bg_color,
            },
        );
        let ghost head = out.deep_view();
        let mut grid = self.redraw();
        let ghost tail = grid.deep_view();
        out.append(&mut grid);
        proof {
            assert(out.deep_view() =~= head + tail);
        }
        out
    }
}

} // verus!
