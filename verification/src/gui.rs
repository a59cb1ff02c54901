//! Windows in the retro style on the serial console: coloured double
//! borders, a bracketed title and dotted sides.

use crate::console::{cursor_sequence, cursor_to, push_repeated, repeated};
use vstd::prelude::*;

verus! {

pub const RETRO_CYAN: &'static str = "\x1B[1;36m";

pub const RETRO_GREEN: &'static str = "\x1B[1;32m";

pub const RETRO_YELLOW: &'static str = "\x1B[1;33m";

pub const RETRO_MAGENTA: &'static str = "\x1B[1;35m";

/// The sequence that ends all colouring.
pub const RESET: &'static str = "\x1B[0m";

/// A window in the retro style.
pub struct Window {
    x: u16,
    y: u16,
    width: u16,
    height: u16,
    title: &'static str,
    border_color: &'static str,
    title_color: &'static str,
}

/// `a - b`, or 0 where `b` is the larger.
pub open spec fn minus(a: nat, b: nat) -> nat {
    if a >= b {
        (a - b) as nat
    } else {
        0
    }
}

fn less(a: u16, b: u16) -> (r: u32)
    ensures
        r == minus(a as nat, b as nat),
{
    if a >= b {
        (a - b) as u32
    } else {
        0
    }
}

/// What a window is, as plain values.
pub struct WindowModel {
    pub x: u16,
    pub y: u16,
    pub width: u16,
    pub height: u16,
    pub title: Seq<char>,
    pub border_color: Seq<char>,
    pub title_color: Seq<char>,
}

impl WindowModel {
    /// The last row of the window, counted from its first.
    pub open spec fn last_row(self) -> nat {
        minus(self.height as nat, 1)
    }

    /// The sequence that takes the cursor to a cell of the window.
    pub open spec fn cursor(self, rel_x: nat, rel_y: nat) -> Seq<char> {
        cursor_sequence((self.x + rel_x + 1) as nat, (self.y + rel_y + 1) as nat)
    }

    /// The top border, in the border's colour.
    pub open spec fn top(self) -> Seq<char> {
        self.border_color + self.cursor(0, 0) + "╔═"@ + repeated(
            "═"@,
            minus(self.width as nat, 6),
        ) + "═╗"@
    }

    /// The title in brackets, in its own colour, on the top border.
    pub open spec fn title_bar(self) -> Seq<char> {
        self.cursor(2, 0) + self.title_color + "[ "@ + self.title + " ]"@ + self.border_color
    }

    /// The mark beside the border of a row: a dot on even rows.
    pub open spec fn mark(row: nat) -> Seq<char> {
        if row % 2 == 0 {
            "·"@
        } else {
            " "@
        }
    }

    /// One row between the borders.
    pub open spec fn side(self, row: nat) -> Seq<char> {
        self.cursor(0, row) + "║"@ + Self::mark(row) + repeated(
            " "@,
            minus(self.width as nat, 4),
        ) + Self::mark(row) + "║"@
    }

    /// The rows from the second up to, but without, row `end`.
    pub open spec fn sides(self, end: nat) -> Seq<char>
        decreases end,
    {
        if end <= 1 {
            Seq::empty()
        } else {
            self.sides((end - 1) as nat) + self.side((end - 1) as nat)
        }
    }

    /// The bottom border, after which colouring ends.
    pub open spec fn bottom(self) -> Seq<char> {
        self.cursor(0, self.last_row()) + "╚═"@ + repeated("═"@, minus(self.width as nat, 6))
            + "═╝"@ + RESET@
    }

    /// All that draws the window.
    pub open spec fn drawing(self) -> Seq<char> {
        self.top() + self.title_bar() + self.sides(self.last_row()) + self.bottom()
    }

    /// What blanks one row between the borders.
    pub open spec fn blank_row(self, row: nat) -> Seq<char> {
        self.cursor(1, row) + repeated(" "@, minus(self.width as nat, 2))
    }

    /// What blanks the rows from the second up to, but without, row
    /// `end`.
    pub open spec fn blanks(self, end: nat) -> Seq<char>
        decreases end,
    {
        if end <= 1 {
            Seq::empty()
        } else {
            self.blanks((end - 1) as nat) + self.blank_row((end - 1) as nat)
        }
    }

    /// What writes `text` from a cell of the window on: nothing on or
    /// below the bottom border.
    pub open spec fn writing(self, x: nat, y: nat, text: Seq<char>) -> Seq<char> {
        if y >= self.last_row() {
            Seq::empty()
        } else {
            self.cursor(x, y) + text
        }
    }
}

impl View for Window {
    type V = WindowModel;

    closed spec fn view(&self) -> WindowModel {
        WindowModel {
            x: self.x,
            y: self.y,
            width: self.width,
            height: self.height,
            title: self.title@,
            border_color: self.border_color@,
            title_color: self.title_color@,
        }
    }
}

impl Window {
    /// A window.
    pub fn new(
        x: u16,
        y: u16,
        width: u16,
        height: u16,
        title: &'static str,
        border_color: &'static str,
        title_color: &'static str,
    ) -> (w: Window)
        ensures
            w@ == (WindowModel {
                x,
                y,
                width,
                height,
                title: title@,
                border_color: border_color@,
                title_color: title_color@,
            }),
    {
        Window { x, y, width, height, title, border_color, title_color }
    }

    /// What to send to take the cursor to a cell of the window.
    pub fn move_cursor(&self, rel_x: u16, rel_y: u16) -> (r: String)
        ensures
            r@ == self@.cursor(rel_x as nat, rel_y as nat),
    {
        cursor_to(self.x as u32 + rel_x as u32 + 1, self.y as u32 + rel_y as u32 + 1)
    }

    fn mark(row: u16) -> (r: &'static str)
        ensures
            r@ == WindowModel::mark(row as nat),
    {
        if row % 2 == 0 {
            "·"
        } else {
            " "
        }
    }

    /// What to send to draw the window.
    pub fn draw(&self) -> (r: String)
        ensures
            r@ == self@.drawing(),
    {
        let ghost model = self@;
        let border = less(self.width, 6);
        let inner = less(self.width, 4);
        let last: u16 = if self.height >= 1 {
            self.height - 1
        } else {
            0
        };
        let mut out = String::from_str(self.border_color);
        let at = self.move_cursor(0, 0);
        out.append(at.as_str());
        out.append("╔═");
        push_repeated(&mut out, "═", border);
        out.append("═╗");
        proof {
            assert(out@ =~= model.top());
        }
        let at = self.move_cursor(2, 0);
        out.append(at.as_str());
        out.append(self.title_color);
        out.append("[ ");
        out.append(self.title);
        out.append(" ]");
        out.append(self.border_color);
        proof {
            assert(out@ =~= model.top() + model.title_bar());
            assert(out@ =~= model.top() + model.title_bar() + model.sides(1));
        }
        let mut row: u16 = 1;
        while row < last
            invariant
                1 <= row,
                row <= last || (last == 0 && row == 1),
                model == self@,
                inner == minus(self.width as nat, 4),
                out@ == model.top() + model.title_bar() + model.sides(row as nat),
            decreases last - row,
        {
            let at = self.move_cursor(0, row);
            out.append(at.as_str());
            out.append("║");
            out.append(Self::mark(row));
            push_repeated(&mut out, " ", inner);
            out.append(Self::mark(row));
            out.append("║");
            proof {
                assert(out@ =~= model.top() + model.title_bar() + (model.sides(row as nat)
                    + model.side(row as nat)));
            }
            row += 1;
        }
        proof {
            if last == 0 {
                assert(model.sides(1) == Seq::<char>::empty());
                assert(model.sides(0) == Seq::<char>::empty());
            }
        }
        let at = self.move_cursor(0, last);
        out.append(at.as_str());
        out.append("╚═");
        push_repeated(&mut out, "═", border);
        out.append("═╝");
        out.append(RESET);
        proof {
            assert(out@ =~= model.drawing());
        }
        out
    }

    /// What to send to write `text` from a cell of the window on.
    /// Nothing is written on or below the bottom border.
    pub fn write_at(&self, x: u16, y: u16, text: &str) -> (r: String)
        ensures
            r@ == self@.writing(x as nat, y as nat, text@),
    {
        let last = less(self.height, 1);
        if y as u32 >= last {
            return String::new();
        }
        let mut out = self.move_cursor(x, y);
        out.append(text);
        out
    }

    /// What to send to blank the inside of the window.
    pub fn clear_content(&self) -> (r: String)
        ensures
            r@ == self@.blanks(self@.last_row()),
    {
        let ghost model = self@;
        let inner = less(self.width, 2);
        let last: u16 = if self.height >= 1 {
            self.height - 1
        } else {
            0
        };
        let mut out = String::new();
        proof {
            assert(out@ =~= model.blanks(1));
        }
        let mut row: u16 = 1;
        while row < last
            invariant
                1 <= row,
                row <= last || (last == 0 && row == 1),
                model == self@,
                inner == minus(self.width as nat, 2),
                out@ == model.blanks(row as nat),
            decreases last - row,
        {
            let at = self.move_cursor(1, row);
            out.append(at.as_str());
            push_repeated(&mut out, " ", inner);
            proof {
                assert(out@ =~= model.blanks(row as nat) + model.blank_row(row as nat));
            }
            row += 1;
        }
        proof {
            if last == 0 {
                assert(model.blanks(1) == Seq::<char>::empty());
                assert(model.blanks(0) == Seq::<char>::empty());
            }
        }
        out
    }
}

} // verus!
