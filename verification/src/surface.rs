//! What the console asks of the pixel surface it is drawn on.

use vstd::prelude::*;

verus! {

/// One request to the surface.
pub enum DrawCommand {
    /// Fill a rectangle with a colour.
    FillRect { x: u32, y: u32, width: u32, height: u32, color: u32 },
    /// Draw a text in a colour, its top left corner at the point.
    Text { x: u32, y: u32, text: String, color: u32 },
    /// Show what was drawn.
    Present,
}

/// A request as mathematics.
pub enum DrawModel {
    FillRect { x: u32, y: u32, width: u32, height: u32, color: u32 },
    Text { x: u32, y: u32, text: Seq<char>, color: u32 },
    Present,
}

impl DeepView for DrawCommand {
    type V = DrawModel;

    open spec fn deep_view(&self) -> DrawModel {
        match *self {
            DrawCommand::FillRect { x, y, width, height, color } => DrawModel::FillRect {
                x,
                y,
                width,
                height,
                color,
            },
            DrawCommand::Text { x, y, text, color } => DrawModel::Text { x, y, text: text@, color },
            DrawCommand::Present => DrawModel::Present,
        }
    }
}


/// Where a span of `length` pixels from `start` on ends on a surface of
/// `limit` pixels: at its own end or at the surface's, whichever comes
/// first.
pub open spec fn span_end(start: u32, length: u32, limit: u32) -> int {
    if start + length < limit {
        start + length
    } else {
        limit as int
    }
}

/// The end of a span, cut off at the edge of the surface.
pub fn clip(start: u32, length: u32, limit: u32) -> (end: u32)
    ensures
        end == span_end(start, length, limit),
{
    match start.checked_add(length) {
        Some(end) => if end < limit {
            end
        } else {
            limit
        },
        None => limit,
    }
}

} // verus!
