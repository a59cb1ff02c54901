//! The scrollback: every line the console has emitted, oldest first, and
//! the window of it that is on screen.

use crate::text::{lines, split_lines};
use vstd::prelude::*;

verus! {

/// One line of output and the colour it is drawn in.
pub struct ColoredLine {
    pub text: String,
    pub color: u32,
}

/// A line as mathematics.
pub struct LineModel {
    pub text: Seq<char>,
    pub color: u32,
}

impl DeepView for ColoredLine {
    type V = LineModel;

    open spec fn deep_view(&self) -> LineModel {
        LineModel { text: self.text@, color: self.color }
    }
}

impl Clone for ColoredLine {
    fn clone(&self) -> (r: ColoredLine)
        ensures
            r.deep_view() == self.deep_view(),
    {
        ColoredLine { text: self.text.clone(), color: self.color }
    }
}

/// The lines of `text`, each in `color`.
pub open spec fn colored_lines(text: Seq<char>, color: u32) -> Seq<LineModel> {
    lines(text).map_values(|t: Seq<char>| LineModel { text: t, color })
}

/// `v` held between `lo` and `hi`.
pub open spec fn clamp(v: int, lo: int, hi: int) -> int {
    if v < lo {
        lo
    } else if v > hi {
        hi
    } else {
        v
    }
}

/// The scrollback as mathematics.
pub struct BufferModel {
    /// The lines, oldest first.
    pub lines: Seq<LineModel>,
    /// Index of the first line on screen.
    pub scroll_offset: nat,
    /// How many lines the screen shows.
    pub visible_rows: nat,
    /// The most lines that are kept, if there is a limit.
    pub capacity: Option<nat>,
    /// Whether what is on screen is out of date.
    pub dirty: bool,
}

impl BufferModel {
    /// The largest scroll offset: the one that shows the newest line at
    /// the bottom of the screen.
    pub open spec fn max_offset(self) -> nat {
        if self.lines.len() > self.visible_rows {
            (self.lines.len() - self.visible_rows) as nat
        } else {
            0
        }
    }

    /// The scroll offset is within its bounds and no more lines are kept
    /// than the limit allows.
    pub open spec fn wf(self) -> bool {
        &&& self.scroll_offset <= self.max_offset()
        &&& self.capacity matches Some(c) ==> self.lines.len() <= c
    }

    /// These lines with the oldest dropped until the limit is met.
    pub open spec fn kept(self, all: Seq<LineModel>) -> Seq<LineModel> {
        match self.capacity {
            Some(c) => if all.len() > c {
                all.skip(all.len() - c)
            } else {
                all
            },
            None => all,
        }
    }

    /// With these lines, the scroll offset brought back within bounds.
    pub open spec fn with_lines(self, all: Seq<LineModel>) -> BufferModel {
        let next = BufferModel { lines: all, dirty: true, ..self };
        BufferModel { scroll_offset: clamp(self.scroll_offset as int, 0, next.max_offset() as int) as nat, ..next }
    }

    /// After the lines of `text` were appended in `color`.
    pub open spec fn appended(self, text: Seq<char>, color: u32) -> BufferModel {
        self.with_lines(self.kept(self.lines + colored_lines(text, color)))
    }

    /// After scrolling by `delta` lines, downwards if positive.
    pub open spec fn scrolled(self, delta: int) -> BufferModel {
        let target = clamp(self.scroll_offset + delta, 0, self.max_offset() as int) as nat;
        BufferModel { scroll_offset: target, dirty: self.dirty || target != self.scroll_offset, ..self }
    }

    /// The lines `[scroll_offset, scroll_offset + rows)`, as far as they
    /// exist.
    pub open spec fn window(self, rows: nat) -> Seq<LineModel> {
        let from = clamp(self.scroll_offset as int, 0, self.lines.len() as int);
        let to = clamp((self.scroll_offset + rows) as int, from, self.lines.len() as int);
        self.lines.subrange(from, to)
    }

    /// With no lines at all.
    pub open spec fn cleared(self) -> BufferModel {
        BufferModel { lines: Seq::empty(), scroll_offset: 0, dirty: true, ..self }
    }

    /// With `c` appended to the last line; a first line is started where
    /// there is none.
    pub open spec fn echoed(self, c: char, color: u32) -> BufferModel {
        if self.lines.len() == 0 {
            self.with_lines(self.kept(seq![LineModel { text: seq![c], color }]))
        } else {
            let last = self.lines.last();
            BufferModel {
                lines: self.lines.drop_last().push(LineModel { text: last.text.push(c), color: last.color }),
                dirty: true,
                ..self
            }
        }
    }

    /// With the last character of the last line removed, if there is one.
    pub open spec fn erased(self) -> BufferModel {
        if self.lines.len() == 0 || self.lines.last().text.len() == 0 {
            self
        } else {
            let last = self.lines.last();
            BufferModel {
                lines: self.lines.drop_last().push(LineModel { text: last.text.drop_last(), color: last.color }),
                dirty: true,
                ..self
            }
        }
    }

    /// With `text` in `color` as the last line, in place of the one there
    /// was; as the first line where there was none.
    pub open spec fn retyped(self, text: Seq<char>, color: u32) -> BufferModel {
        if self.lines.len() == 0 {
            self.with_lines(self.kept(seq![LineModel { text, color }]))
        } else {
            BufferModel { lines: self.lines.drop_last().push(LineModel { text, color }), dirty: true, ..self }
        }
    }
}

/// The scrollback buffer.
pub struct ScrollbackBuffer {
    lines: Vec<ColoredLine>,
    scroll_offset: usize,
    visible_rows: usize,
    capacity: Option<usize>,
    dirty: bool,
}

impl View for ScrollbackBuffer {
    type V = BufferModel;

    closed spec fn view(&self) -> BufferModel {
        BufferModel {
            lines: self.lines.deep_view(),
            scroll_offset: self.scroll_offset as nat,
            visible_rows: self.visible_rows as nat,
            capacity: match self.capacity {
                Some(c) => Some(c as nat),
                None => None,
            },
            dirty: self.dirty,
        }
    }
}

impl ScrollbackBuffer {
    /// An empty scrollback for a screen of `visible_rows` lines, which
    /// keeps every line.
    pub fn new(visible_rows: usize) -> (b: ScrollbackBuffer)
        ensures
            b@.wf(),
            b@ == (BufferModel {
                lines: Seq::empty(),
                scroll_offset: 0,
                visible_rows: visible_rows as nat,
                capacity: None,
                dirty: true,
            }),
    {
        let b = ScrollbackBuffer {
            lines: Vec::new(),
            scroll_offset: 0,
            visible_rows,
            capacity: None,
            dirty: true,
        };
        proof {
            assert(b.lines.deep_view() =~= Seq::<LineModel>::empty());
        }
        b
    }

    /// An empty scrollback that keeps the newest `capacity` lines only.
    pub fn with_capacity(visible_rows: usize, capacity: usize) -> (b: ScrollbackBuffer)
        ensures
            b@.wf(),
            b@ == (BufferModel {
                lines: Seq::empty(),
                scroll_offset: 0,
                visible_rows: visible_rows as nat,
                capacity: Some(capacity as nat),
                dirty: true,
            }),
    {
        let b = ScrollbackBuffer {
            lines: Vec::new(),
            scroll_offset: 0,
            visible_rows,
            capacity: Some(capacity),
            dirty: true,
        };
        proof {
            assert(b.lines.deep_view() =~= Seq::<LineModel>::empty());
        }
        b
    }

    /// The number of lines.
    pub fn len(&self) -> (n: usize)
        ensures
            n == self@.lines.len(),
    {
        self.lines.len()
    }

    /// Index of the first line on screen.
    pub fn scroll_offset(&self) -> (n: usize)
        ensures
            n == self@.scroll_offset,
    {
        self.scroll_offset
    }

    /// How many lines the screen shows.
    pub fn visible_rows(&self) -> (n: usize)
        ensures
            n == self@.visible_rows,
    {
        self.visible_rows
    }

    /// Whether what is on screen is out of date.
    pub fn is_dirty(&self) -> (d: bool)
        ensures
            d == self@.dirty,
    {
        self.dirty
    }

    /// Records that the screen shows the buffer as it is.
    pub fn mark_clean(&mut self)
        ensures
            final(self)@ == (BufferModel { dirty: false, ..old(self)@ }),
    {
        self.dirty = false;
    }

    /// Records that the screen is out of date.
    pub fn mark_dirty(&mut self)
        ensures
            final(self)@ == (BufferModel { dirty: true, ..old(self)@ }),
    {
        self.dirty = true;
    }

    /// The line at `index`.
    pub fn line(&self, index: usize) -> (l: &ColoredLine)
        requires
            index < self@.lines.len(),
        ensures
            l.deep_view() == self@.lines[index as int],
    {
        &self.lines[index]
    }

    fn max_offset(&self) -> (m: usize)
        ensures
            m == self@.max_offset(),
    {
        if self.lines.len() > self.visible_rows {
            self.lines.len() - self.visible_rows
        } else {
            0
        }
    }

    /// Drops the oldest lines beyond the limit and brings the scroll
    /// offset back within bounds.
    fn settle(&mut self, Ghost(before): Ghost<BufferModel>)
        requires
            before.capacity == old(self)@.capacity,
            before.visible_rows == old(self)@.visible_rows,
            before.scroll_offset == old(self)@.scroll_offset,
        ensures
            final(self)@ == before.with_lines(before.kept(old(self)@.lines)),
            final(self)@.wf(),
    {
        let ghost all = self.lines.deep_view();
        match self.capacity {
            Some(c) => {
                if self.lines.len() > c {
                    let excess = self.lines.len() - c;
                    let tail = self.lines.split_off(excess);
                    self.lines = tail;
                    proof {
                        assert(self.lines.deep_view() =~= all.skip(excess as int));
                    }
                }
            },
            None => {},
        }
        let max = self.max_offset();
        if self.scroll_offset > max {
            self.scroll_offset = max;
        }
        self.dirty = true;
    }

    /// Appends the lines of `text`, each in `color`.
    pub fn append_line(&mut self, text: &str, color: u32)
        ensures
            final(self)@ == old(self)@.appended(text@, color),
            final(self)@.wf(),
    {
        let ghost before = self@;
        let parts = split_lines(text);
        let ghost added = colored_lines(text@, color);
        let mut i: usize = 0;
        proof {
            assert(added.take(0) =~= Seq::<LineModel>::empty());
            assert(before.lines + added.take(0) =~= before.lines);
        }
        while i < parts.len()
            invariant
                i <= parts.len(),
                parts.deep_view() == lines(text@),
                added == colored_lines(text@, color),
                self.lines.deep_view() == before.lines + added.take(i as int),
                self.scroll_offset == before.scroll_offset,
                self.visible_rows == before.visible_rows,
                self@.capacity == before.capacity,
            decreases parts.len() - i,
        {
            let ghost so_far = self.lines.deep_view();
            self.lines.push(ColoredLine { text: parts[i].clone(), color });
            proof {
                assert(parts.deep_view()[i as int] == parts@[i as int]@);
                assert(added[i as int] == (LineModel { text: parts@[i as int]@, color }));
                assert(self.lines.deep_view() =~= so_far.push(added[i as int]));
                assert(before.lines + added.take(i + 1) =~= (before.lines + added.take(
                    i as int,
                )).push(added[i as int]));
            }
            i += 1;
        }
        proof {
            assert(added.take(parts.len() as int) =~= added);
        }
        self.settle(Ghost(before));
    }

    /// Scrolls by `delta` lines, downwards if positive, and stops at the
    /// first and at the last screenful.
    pub fn scroll(&mut self, delta: isize)
        requires
            old(self)@.wf(),
        ensures
            final(self)@ == old(self)@.scrolled(delta as int),
            final(self)@.wf(),
            final(self)@.lines == old(self)@.lines,
            final(self)@.scroll_offset == clamp(
                old(self)@.scroll_offset + delta,
                0,
                old(self)@.max_offset() as int,
            ),
            old(self)@.scroll_offset + delta <= 0 ==> final(self)@.scroll_offset == 0,
            old(self)@.scroll_offset + delta >= old(self)@.max_offset()
                ==> final(self)@.scroll_offset == old(self)@.max_offset(),
    {
        let max = self.max_offset();
        let target: i128 = self.scroll_offset as i128 + delta as i128;
        let next: usize = if target < 0 {
            0
        } else if target > max as i128 {
            max
        } else {
            target as usize
        };
        if next != self.scroll_offset {
            self.dirty = true;
        }
        self.scroll_offset = next;
    }

    /// The lines on a screen of `visible_rows` lines, from the scroll
    /// offset on. Fewer are returned where the buffer ends before.
    pub fn visible_slice(&self, visible_rows: usize) -> (r: &[ColoredLine])
        ensures
            r.deep_view() == self@.window(visible_rows as nat),
    {
        let len = self.lines.len();
        let from = if self.scroll_offset > len {
            len
        } else {
            self.scroll_offset
        };
        let to = if visible_rows > len - from {
            len
        } else {
            from + visible_rows
        };
        let r = &self.lines.as_slice()[from..to];
        proof {
            assert(r.deep_view() =~= self.lines.deep_view().subrange(from as int, to as int));
        }
        r
    }

    /// Appends `c` to the last line, or starts a first line in `color`
    /// with it.
    pub fn echo(&mut self, c: char, color: u32)
        requires
            old(self)@.wf(),
        ensures
            final(self)@ == old(self)@.echoed(c, color),
            final(self)@.wf(),
    {
        let ghost before = self@;
        let n = self.lines.len();
        if n == 0 {
            let mut text = String::new();
            text.push(c);
            self.lines.push(ColoredLine { text, color });
            proof {
                assert(self.lines.deep_view() =~= seq![LineModel { text: seq![c], color }]);
            }
            self.settle(Ghost(before));
        } else {
            let line = &mut self.lines[n - 1];
            line.text.push(c);
            self.dirty = true;
            proof {
                let last = before.lines.last();
                assert(self.lines.deep_view() =~= before.lines.drop_last().push(
                    LineModel { text: last.text.push(c), color: last.color },
                ));
            }
        }
    }

    /// Removes the last character of the last line, if there is one.
    pub fn erase(&mut self)
        requires
            old(self)@.wf(),
        ensures
            final(self)@ == old(self)@.erased(),
            final(self)@.wf(),
    {
        let ghost before = self@;
        let n = self.lines.len();
        if n > 0 {
            let line = &mut self.lines[n - 1];
            let removed = line.text.pop();
            if removed.is_some() {
                self.dirty = true;
                proof {
                    let last = before.lines.last();
                    assert(self.lines.deep_view() =~= before.lines.drop_last().push(
                        LineModel { text: last.text.drop_last(), color: last.color },
                    ));
                }
            } else {
                proof {
                    assert(self.lines.deep_view() =~= before.lines);
                }
            }
        }
    }

    /// Puts `text` in `color` in place of the last line, or makes it the
    /// first line.
    pub fn retype(&mut self, text: &str, color: u32)
        requires
            old(self)@.wf(),
        ensures
            final(self)@ == old(self)@.retyped(text@, color),
            final(self)@.wf(),
    {
        let ghost before = self@;
        let n = self.lines.len();
        let line = ColoredLine { text: String::from_str(text), color };
        if n == 0 {
            self.lines.push(line);
            proof {
                assert(self.lines.deep_view() =~= seq![LineModel { text: text@, color }]);
            }
            self.settle(Ghost(before));
        } else {
            self.lines[n - 1] = line;
            self.dirty = true;
            proof {
                assert(self.lines.deep_view() =~= before.lines.drop_last().push(
                    LineModel { text: text@, color },
                ));
            }
        }
    }

    /// Forgets every line and scrolls back to the top.
    pub fn clear(&mut self)
        ensures
            final(self)@ == old(self)@.cleared(),
            final(self)@.wf(),
    {
        self.lines.clear();
        self.scroll_offset = 0;
        self.dirty = true;
        proof {
            assert(self.lines.deep_view() =~= Seq::<LineModel>::empty());
        }
    }
}

/// Scrolling stops at the ends. A scroll that would pass the first or the
/// last screenful reaches exactly that one, and the same scroll again, any
/// number of times, changes the scroll offset no further.
pub proof fn lemma_scroll_stops(b: BufferModel, delta: int, times: nat)
    requires
        b.wf(),
        b.scroll_offset + delta <= 0 || b.scroll_offset + delta >= b.max_offset(),
    ensures
        b.scrolled(delta).scroll_offset == (if b.scroll_offset + delta <= 0 {
            0
        } else {
            b.max_offset()
        }),
        scrolled_again(b.scrolled(delta), delta, times).scroll_offset == b.scrolled(
            delta,
        ).scroll_offset,
        scrolled_again(b.scrolled(delta), delta, times).lines == b.lines,
        scrolled_again(b.scrolled(delta), delta, times).visible_rows == b.visible_rows,
    decreases times,
{
    if times > 0 {
        lemma_scroll_stops(b, delta, (times - 1) as nat);
    }
}

/// At the top, a scroll towards the top changes neither the scroll offset
/// nor the lines, however often it is made.
pub proof fn lemma_scroll_stops_at_top(b: BufferModel, delta: int, times: nat)
    requires
        b.wf(),
        b.scroll_offset == 0,
        delta <= 0,
    ensures
        scrolled_again(b, delta, times).scroll_offset == 0,
        scrolled_again(b, delta, times).lines == b.lines,
        scrolled_again(b, delta, times).visible_rows == b.visible_rows,
        scrolled_again(b, delta, times).wf(),
    decreases times,
{
    if times > 0 {
        lemma_scroll_stops_at_top(b, delta, (times - 1) as nat);
    }
}

/// At the bottom, a scroll towards the bottom changes neither the scroll
/// offset nor the lines, however often it is made.
pub proof fn lemma_scroll_stops_at_bottom(b: BufferModel, delta: int, times: nat)
    requires
        b.wf(),
        b.scroll_offset == b.max_offset(),
        delta >= 0,
    ensures
        scrolled_again(b, delta, times).scroll_offset == b.max_offset(),
        scrolled_again(b, delta, times).lines == b.lines,
        scrolled_again(b, delta, times).visible_rows == b.visible_rows,
        scrolled_again(b, delta, times).wf(),
    decreases times,
{
    if times > 0 {
        lemma_scroll_stops_at_bottom(b, delta, (times - 1) as nat);
    }
}

/// Wherever a scroll starts and however far it goes, it ends within the
/// bounds: at the offset asked for, or at the end it would have passed.
pub proof fn lemma_scroll_in_bounds(b: BufferModel, delta: int)
    ensures
        b.scrolled(delta).scroll_offset == clamp(b.scroll_offset + delta, 0, b.max_offset() as int),
        0 <= b.scrolled(delta).scroll_offset <= b.max_offset(),
        b.scrolled(delta).max_offset() == b.max_offset(),
        b.scrolled(delta).lines == b.lines,
{
}

/// The buffer after `times` scrolls by `delta`.
pub open spec fn scrolled_again(b: BufferModel, delta: int, times: nat) -> BufferModel
    decreases times,
{
    if times == 0 {
        b
    } else {
        scrolled_again(b, delta, (times - 1) as nat).scrolled(delta)
    }
}

} // verus!
