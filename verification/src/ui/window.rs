//! Virtual desktops: which windows stand on which desktop, and which
//! desktop is shown.

use vstd::prelude::*;

verus! {

/// The desktops as mathematics.
pub struct DesktopsModel {
    /// For each desktop, the windows on it, by their numbers.
    pub desktops: Seq<Seq<usize>>,
    /// The desktop that is shown.
    pub current: nat,
    /// The window that takes the input, if any.
    pub focused: Option<usize>,
}

impl DesktopsModel {
    /// There is a desktop, and the one shown is one of them.
    pub open spec fn wf(self) -> bool {
        self.current < self.desktops.len()
    }

    /// With one more desktop, empty, after the others.
    pub open spec fn added(self) -> DesktopsModel {
        DesktopsModel { desktops: self.desktops.push(Seq::empty()), ..self }
    }

    /// With desktop `index` shown, if there is one.
    pub open spec fn switched(self, index: nat) -> DesktopsModel {
        if index < self.desktops.len() {
            DesktopsModel { current: index, ..self }
        } else {
            self
        }
    }

    /// With `window` put last on the desktop that is shown, and focused.
    pub open spec fn placed(self, window: usize) -> DesktopsModel {
        DesktopsModel {
            desktops: self.desktops.update(
                self.current as int,
                self.desktops[self.current as int].push(window),
            ),
            focused: Some(window),
            ..self
        }
    }
}

/// The window manager's desktops.
pub struct WindowManager {
    current_desktop: usize,
    desktops: Vec<Vec<usize>>,
    focused_window: Option<usize>,
}

impl View for WindowManager {
    type V = DesktopsModel;

    closed spec fn view(&self) -> DesktopsModel {
        DesktopsModel {
            desktops: Seq::new(self.desktops@.len(), |i: int| self.desktops@[i]@),
            current: self.current_desktop as nat,
            focused: self.focused_window,
        }
    }
}

impl WindowManager {
    /// One empty desktop, which is shown, and no window focused.
    pub fn new() -> (m: WindowManager)
        ensures
            m@.wf(),
            m@ == (DesktopsModel { desktops: seq![Seq::empty()], current: 0, focused: None }),
    {
        let mut desktops: Vec<Vec<usize>> = Vec::new();
        desktops.push(Vec::new());
        let m = WindowManager { current_desktop: 0, desktops, focused_window: None };
        proof {
            assert(m@.desktops =~= seq![Seq::<usize>::empty()]);
        }
        m
    }

    /// Adds an empty desktop after the others.
    pub fn add_desktop(&mut self)
        requires
            old(self)@.wf(),
        ensures
            final(self)@.wf(),
            final(self)@ == old(self)@.added(),
    {
        self.desktops.push(Vec::new());
        proof {
            assert(self@.desktops =~= old(self)@.desktops.push(Seq::empty()));
        }
    }

    /// Shows desktop `index`. Nothing happens where there is no such
    /// desktop.
    pub fn switch_desktop(&mut self, index: usize)
        requires
            old(self)@.wf(),
        ensures
            final(self)@.wf(),
            final(self)@ == old(self)@.switched(index as nat),
    {
        if index < self.desktops.len() {
            self.current_desktop = index;
        }
    }

    /// Puts a window on the desktop that is shown and gives it the
    /// focus.
    pub fn add_window(&mut self, window: usize)
        requires
            old(self)@.wf(),
        ensures
            final(self)@.wf(),
            final(self)@ == old(self)@.placed(window),
    {
        let ghost before = self@;
        let desktop = &mut self.desktops[self.current_desktop];
        desktop.push(window);
        self.focused_window = Some(window);
        proof {
            assert(self@.desktops =~= before.desktops.update(
                before.current as int,
                before.desktops[before.current as int].push(window),
            ));
        }
    }

    /// The desktop that is shown.
    pub fn current_desktop(&self) -> (r: usize)
        ensures
            r == self@.current,
    {
        self.current_desktop
    }

    /// The window that takes the input, if any.
    pub fn focused_window(&self) -> (r: Option<usize>)
        ensures
            r == self@.focused,
    {
        self.focused_window
    }

    /// The windows to draw, in order: those on the desktop that is
    /// shown.
    pub fn draw(&self) -> (r: &Vec<usize>)
        requires
            self@.wf(),
        ensures
            r@ == self@.desktops[self@.current as int],
    {
        &self.desktops[self.current_desktop]
    }
}

} // verus!
