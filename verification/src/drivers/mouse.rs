//! The pointer: a position held within the screen, and the buttons.

use vstd::prelude::*;

verus! {

/// The largest horizontal position.
pub const MAX_X: i32 = 799;

/// The largest vertical position.
pub const MAX_Y: i32 = 599;

/// Where the pointer is and which buttons are held.
#[derive(Clone, Copy, Debug, PartialEq, Eq, Structural)]
pub struct MouseState {
    pub x: i32,
    pub y: i32,
    pub buttons: u8,
}

/// The pointer.
pub struct Mouse {
    state: MouseState,
    initialized: bool,
}

/// `v` held between 0 and `max`.
pub open spec fn on_screen(v: int, max: int) -> int {
    if v < 0 {
        0
    } else if v > max {
        max
    } else {
        v
    }
}

/// The state after the pointer moved by `(dx, dy)` with these buttons
/// held.
pub open spec fn moved(state: MouseState, dx: i32, dy: i32, buttons: u8) -> MouseState {
    MouseState {
        x: on_screen(state.x + dx, MAX_X as int) as i32,
        y: on_screen(state.y + dy, MAX_Y as int) as i32,
        buttons,
    }
}

fn hold(position: i32, delta: i32, max: i32) -> (r: i32)
    requires
        0 <= max,
    ensures
        r == on_screen(position + delta, max as int),
{
    let target: i64 = position as i64 + delta as i64;
    if target < 0 {
        0
    } else if target > max as i64 {
        max
    } else {
        target as i32
    }
}

impl View for Mouse {
    type V = MouseState;

    closed spec fn view(&self) -> MouseState {
        self.state
    }
}

impl Mouse {
    /// Whether [`Mouse::init`] has run.
    pub closed spec fn ready(&self) -> bool {
        self.initialized
    }

    /// A pointer in the top left corner with no button held.
    pub fn new() -> (m: Mouse)
        ensures
            !m.ready(),
            m@ == (MouseState { x: 0, y: 0, buttons: 0 }),
    {
        Mouse { state: MouseState { x: 0, y: 0, buttons: 0 }, initialized: false }
    }

    /// Marks the pointer as set up. Its state stays.
    pub fn init(&mut self)
        ensures
            final(self).ready(),
            final(self)@ == old(self)@,
    {
        if self.initialized {
            return ;
        }
        self.initialized = true;
    }

    /// Moves the pointer by `(dx, dy)`, stopping at the edges of the
    /// screen, and records the buttons.
    pub fn update_state(&mut self, dx: i32, dy: i32, buttons: u8)
        ensures
            final(self).ready() == old(self).ready(),
            final(self)@ == moved(old(self)@, dx, dy, buttons),
    {
        self.state.x = hold(self.state.x, dx, MAX_X);
        self.state.y = hold(self.state.y, dy, MAX_Y);
        self.state.buttons = buttons;
    }

    /// The pointer's position and buttons.
    pub fn poll(&self) -> (r: Option<(i32, i32, u8)>)
        ensures
            r == Some((self@.x, self@.y, self@.buttons)),
    {
        Some((self.state.x, self.state.y, self.state.buttons))
    }

    /// Takes the movement and the buttons that an interrupt reports.
    pub fn handle_interrupt(&mut self, dx: i32, dy: i32, buttons: u8)
        ensures
            final(self).ready() == old(self).ready(),
            final(self)@ == moved(old(self)@, dx, dy, buttons),
    {
        self.update_state(dx, dy, buttons);
    }
}

/// However the pointer moves, it stays on the screen.
pub proof fn lemma_pointer_on_screen(state: MouseState, dx: i32, dy: i32, buttons: u8)
    ensures
        0 <= moved(state, dx, dy, buttons).x <= MAX_X,
        0 <= moved(state, dx, dy, buttons).y <= MAX_Y,
{
}

} // verus!
