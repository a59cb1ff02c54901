//! Plain framed windows on the serial console.

use crate::console::{cursor_sequence, cursor_to, push_repeated, repeated};
use vstd::prelude::*;

verus! {

/// A framed window: the position of its top left corner on the console,
/// its size in cells, and its title.
pub struct Window {
    pub x: u16,
    pub y: u16,
    pub width: u16,
    pub height: u16,
    pub title: &'static str,
}

impl Window {
    /// Cells between the two side borders.
    pub open spec fn inner_width(&self) -> nat {
        if self.width >= 2 {
            (self.width - 2) as nat
        } else {
            0
        }
    }

    /// The last row of the window, counted from its first.
    pub open spec fn last_row(&self) -> nat {
        if self.height >= 1 {
            (self.height - 1) as nat
        } else {
            0
        }
    }

    /// The sequence that takes the cursor to a cell of the window.
    pub open spec fn cursor(&self, rel_x: nat, rel_y: nat) -> Seq<char> {
        cursor_sequence((self.x + rel_x + 1) as nat, (self.y + rel_y + 1) as nat)
    }

    /// The top border.
    pub open spec fn top(&self) -> Seq<char> {
        self.cursor(0, 0) + "╔"@ + repeated("═"@, self.inner_width()) + "╗\n"@
    }

    /// The title, on the top border.
    pub open spec fn title_bar(&self) -> Seq<char> {
        self.cursor(2, 0) + " "@ + self.title@ + " "@
    }

    /// One row between the borders.
    pub open spec fn side(&self, row: nat) -> Seq<char> {
        self.cursor(0, row) + "║"@ + repeated(" "@, self.inner_width()) + "║\n"@
    }

    /// The rows from the second up to, but without, row `end`.
    pub open spec fn sides(&self, end: nat) -> Seq<char>
        decreases end,
    {
        if end <= 1 {
            Seq::empty()
        } else {
            self.sides((end - 1) as nat) + self.side((end - 1) as nat)
        }
    }

    /// The bottom border.
    pub open spec fn bottom(&self) -> Seq<char> {
        self.cursor(0, self.last_row()) + "╚"@ + repeated("═"@, self.inner_width()) + "╝\n"@
    }

    /// All that draws the window: top border, title, sides, bottom
    /// border.
    pub open spec fn drawing(&self) -> Seq<char> {
        self.top() + self.title_bar() + self.sides(self.last_row()) + self.bottom()
    }

    /// A window.
    pub fn new(x: u16, y: u16, width: u16, height: u16, title: &'static str) -> (w: Window)
        ensures
            w.x == x,
            w.y == y,
            w.width == width,
            w.height == height,
            w.title@ == title@,
    {
        Window { x, y, width, height, title }
    }

    /// What to send to take the cursor to a cell of the window.
    pub fn move_cursor(&self, rel_x: u16, rel_y: u16) -> (r: String)
        ensures
            r@ == self.cursor(rel_x as nat, rel_y as nat),
    {
        cursor_to(self.x as u32 + rel_x as u32 + 1, self.y as u32 + rel_y as u32 + 1)
    }

    /// What to send to draw the window.
    pub fn draw(&self) -> (r: String)
        ensures
            r@ == self.drawing(),
    {
        let inner: u32 = if self.width >= 2 {
            (self.width - 2) as u32
        } else {
            0
        };
        let last: u16 = if self.height >= 1 {
            self.height - 1
        } else {
            0
        };
        let mut out = self.move_cursor(0, 0);
        out.append("╔");
        push_repeated(&mut out, "═", inner);
        out.append("╗\n");
        proof {
            assert(out@ =~= self.top());
        }
        let title = self.move_cursor(2, 0);
        out.append(title.as_str());
        out.append(" ");
        out.append(self.title);
        out.append(" ");
        proof {
            assert(out@ =~= self.top() + self.title_bar());
            assert(out@ =~= self.top() + self.title_bar() + self.sides(1));
        }
        let mut row: u16 = 1;
        while row < last
            invariant
                1 <= row,
                row <= last || (last == 0 && row == 1),
                inner == self.inner_width(),
                out@ == self.top() + self.title_bar() + self.sides(row as nat),
            decreases last - row,
        {
            let at = self.move_cursor(0, row);
            out.append(at.as_str());
            out.append("║");
            push_repeated(&mut out, " ", inner);
            out.append("║\n");
            proof {
                assert(out@ =~= self.top() + self.title_bar() + (self.sides(row as nat)
                    + self.side(row as nat)));
            }
            row += 1;
        }
        proof {
            if last == 0 {
                assert(row == 1);
                assert(self.sides(1) == Seq::<char>::empty());
                assert(self.sides(0) == Seq::<char>::empty());
            }
        }
        let at = self.move_cursor(0, last);
        out.append(at.as_str());
        out.append("╚");
        push_repeated(&mut out, "═", inner);
        out.append("╝\n");
        proof {
            assert(out@ =~= self.drawing());
        }
        out
    }

    /// What to send to write `text` from a cell of the window on.
    pub fn write_at(&self, x: u16, y: u16, text: &str) -> (r: String)
        ensures
            r@ == self.cursor(x as nat, y as nat) + text@,
    {
        let mut out = self.move_cursor(x, y);
        out.append(text);
        out
    }
}

} // verus!
