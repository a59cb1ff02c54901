//! Text selection: two anchors over the scrollback, put in order before
//! anything is read between them.

use crate::scrollback::{LineModel, ScrollbackBuffer};
use vstd::prelude::*;

verus! {

/// One end of a selection: a column of a line of the scrollback.
#[derive(Clone, Copy, Debug, PartialEq, Eq, Structural)]
pub struct Anchor {
    pub column: usize,
    pub line: usize,
}

/// Whether `a` is `b` or comes before it, by line and then by column.
pub open spec fn anchor_le(a: Anchor, b: Anchor) -> bool {
    a.line < b.line || (a.line == b.line && a.column <= b.column)
}

/// The two anchors, the earlier one first.
pub open spec fn in_order(a: Anchor, b: Anchor) -> (Anchor, Anchor) {
    if anchor_le(a, b) {
        (a, b)
    } else {
        (b, a)
    }
}

/// What line `y` gives to the text between `lo` and `hi`: from `lo`'s
/// column on the first line, up to `hi`'s column on the last, whole
/// otherwise. A column beyond the end of the line counts as the end.
pub open spec fn line_part(text: Seq<char>, y: int, lo: Anchor, hi: Anchor) -> Seq<char> {
    let from = if y == lo.line && lo.column < text.len() {
        lo.column as int
    } else if y == lo.line {
        text.len() as int
    } else {
        0
    };
    let to = if y == hi.line && hi.column < text.len() {
        hi.column as int
    } else {
        text.len() as int
    };
    if from <= to {
        text.subrange(from, to)
    } else {
        Seq::empty()
    }
}

/// The parts of lines `lo.line ..= y`, joined by line breaks.
pub open spec fn span_upto(lines: Seq<LineModel>, lo: Anchor, hi: Anchor, y: int) -> Seq<char>
    decreases y - lo.line,
{
    if y < lo.line || y >= lines.len() {
        Seq::empty()
    } else if y == lo.line {
        line_part(lines[y].text, y, lo, hi)
    } else {
        span_upto(lines, lo, hi, y - 1) + seq!['\n'] + line_part(lines[y].text, y, lo, hi)
    }
}

/// The text between `lo` and `hi`, which are in order. Lines that the
/// buffer does not have give nothing.
pub open spec fn span_text(lines: Seq<LineModel>, lo: Anchor, hi: Anchor) -> Seq<char> {
    if hi.line < lines.len() {
        span_upto(lines, lo, hi, hi.line as int)
    } else {
        span_upto(lines, lo, hi, lines.len() - 1)
    }
}

/// The text that a selection covers.
pub open spec fn selected_text(lines: Seq<LineModel>, anchors: Option<(Anchor, Anchor)>) -> Seq<
    char,
> {
    match anchors {
        Some((a, b)) => span_text(lines, in_order(a, b).0, in_order(a, b).1),
        None => Seq::empty(),
    }
}

/// The selection after a drag began at `at`, over a buffer of `len`
/// lines.
pub open spec fn begun(anchors: Option<(Anchor, Anchor)>, at: Anchor, len: nat) -> Option<
    (Anchor, Anchor),
> {
    if at.line < len {
        Some((at, at))
    } else {
        anchors
    }
}

/// The selection after the drag moved to `at`.
pub open spec fn extended(anchors: Option<(Anchor, Anchor)>, at: Anchor, len: nat) -> Option<
    (Anchor, Anchor),
> {
    match anchors {
        Some((start, _)) if at.line < len => Some((start, at)),
        _ => anchors,
    }
}

/// The selection: no anchors, or the anchor where the drag began and the
/// one it has reached.
pub struct SelectionRange {
    anchors: Option<(Anchor, Anchor)>,
}

impl View for SelectionRange {
    type V = Option<(Anchor, Anchor)>;

    closed spec fn view(&self) -> Option<(Anchor, Anchor)> {
        self.anchors
    }
}

impl SelectionRange {
    /// Nothing selected.
    pub fn new() -> (s: SelectionRange)
        ensures
            s@.is_none(),
    {
        SelectionRange { anchors: None }
    }

    /// Starts a selection at a column of a line: both anchors are set
    /// there. Nothing happens where the buffer has no such line.
    pub fn begin(&mut self, column: usize, line: usize, buffer_len: usize)
        ensures
            final(self)@ == begun(old(self)@, Anchor { column, line }, buffer_len as nat),
    {
        if line < buffer_len {
            let at = Anchor { column, line };
            self.anchors = Some((at, at));
        }
    }

    /// Moves the end of the selection. Nothing happens where the buffer
    /// has no such line, or where no selection was begun.
    pub fn extend(&mut self, column: usize, line: usize, buffer_len: usize)
        ensures
            final(self)@ == extended(old(self)@, Anchor { column, line }, buffer_len as nat),
    {
        match self.anchors {
            Some((start, _)) => {
                if line < buffer_len {
                    self.anchors = Some((start, Anchor { column, line }));
                }
            },
            None => {},
        }
    }

    /// Whether anything is selected.
    pub fn is_active(&self) -> (r: bool)
        ensures
            r == self@.is_some(),
    {
        self.anchors.is_some()
    }

    /// The two anchors, the earlier one first.
    pub fn normalized(&self) -> (r: Option<(Anchor, Anchor)>)
        ensures
            r == match self@ {
                Some((a, b)) => Some(in_order(a, b)),
                None => None,
            },
    {
        match self.anchors {
            Some((a, b)) => {
                if a.line < b.line || (a.line == b.line && a.column <= b.column) {
                    Some((a, b))
                } else {
                    Some((b, a))
                }
            },
            None => None,
        }
    }

    /// Selects nothing.
    pub fn clear(&mut self)
        ensures
            final(self)@.is_none(),
    {
        self.anchors = None;
    }

    /// The selected text, line by line, with a line break between lines.
    pub fn extract_text(&self, buffer: &ScrollbackBuffer) -> (r: String)
        ensures
            r@ == selected_text(buffer@.lines, self@),
    {
        let mut out = String::new();
        let (lo, hi) = match self.normalized() {
            Some(pair) => pair,
            None => {
                return out;
            },
        };
        let len = buffer.len();
        if lo.line >= len {
            return out;
        }
        let last = if hi.line < len {
            hi.line
        } else {
            len - 1
        };
        let ghost lines = buffer@.lines;
        let mut y: usize = lo.line;
        while y <= last
            invariant
                lo.line <= y <= last + 1,
                last < len,
                len == lines.len(),
                lines == buffer@.lines,
                anchor_le(lo, hi),
                selected_text(lines, self@) == span_upto(lines, lo, hi, last as int),
                y == lo.line ==> out@ == Seq::<char>::empty(),
                y > lo.line ==> out@ == span_upto(lines, lo, hi, y - 1),
            decreases last + 1 - y,
        {
            let text = buffer.line(y).text.as_str();
            let n = text.unicode_len();
            let from = if y == lo.line {
                if lo.column < n {
                    lo.column
                } else {
                    n
                }
            } else {
                0
            };
            let to = if y == hi.line && hi.column < n {
                hi.column
            } else {
                n
            };
            if y > lo.line {
                out.push('\n');
            }
            if from <= to {
                out.append(text.substring_char(from, to));
            }
            proof {
                assert(text@ == lines[y as int].text);
                if y == lo.line {
                    assert(out@ =~= line_part(lines[y as int].text, y as int, lo, hi));
                } else {
                    assert(out@ =~= span_upto(lines, lo, hi, y - 1) + seq!['\n'] + line_part(
                        lines[y as int].text,
                        y as int,
                        lo,
                        hi,
                    ));
                }
            }
            if y == last {
                return out;
            }
            y += 1;
        }
        out
    }
}

/// Which anchor was set first makes no difference to the text between
/// them.
pub proof fn lemma_anchor_order_irrelevant(lines: Seq<LineModel>, a: Anchor, b: Anchor)
    ensures
        selected_text(lines, Some((a, b))) == selected_text(lines, Some((b, a))),
{
    if anchor_le(a, b) && anchor_le(b, a) {
        assert(a == b);
    }
}

/// A selection of a single point covers no text.
pub proof fn lemma_point_selects_nothing(lines: Seq<LineModel>, a: Anchor)
    ensures
        selected_text(lines, Some((a, a))) == Seq::<char>::empty(),
{
    if a.line < lines.len() {
        let text = lines[a.line as int].text;
        assert(line_part(text, a.line as int, a, a) =~= Seq::<char>::empty());
    }
}

/// A drag from one point to another selects the same text as the drag
/// the other way, whichever of the two points comes later in the buffer
/// and whether or not the buffer has their lines.
pub proof fn lemma_drag_symmetric(
    before: Option<(Anchor, Anchor)>,
    lines: Seq<LineModel>,
    a: Anchor,
    b: Anchor,
)
    requires
        before.is_none(),
    ensures
        selected_text(lines, extended(begun(before, a, lines.len()), b, lines.len()))
            == selected_text(lines, extended(begun(before, b, lines.len()), a, lines.len())),
{
    lemma_anchor_order_irrelevant(lines, a, b);
    lemma_point_selects_nothing(lines, a);
    lemma_point_selects_nothing(lines, b);
}

} // verus!
