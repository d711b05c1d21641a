use vstd::prelude::*;

verus! {

/// A key press, as the live transcript view tells them apart.
#[derive(Debug, Clone, Copy)]
pub enum Key {
    Char(char),
    Up,
    Down,
    Other,
}

/// How the list of lines is to be scrolled after a key press.
#[derive(Debug, Clone, Copy, PartialEq, Eq)]
pub enum Scroll {
    Up,
    Down,
    Stay,
}

/// What the keys control in the live transcript view: whether to quit, and whether the
/// view follows the newest line.
#[derive(Debug, Clone, Copy)]
pub struct ViewControl {
    pub exit: bool,
    pub auto_scroll: bool,
}

impl ViewControl {
    /// A view that follows the newest line and keeps running.
    pub fn new() -> (res: Self)
        ensures
            !res.exit,
            res.auto_scroll,
    {
        ViewControl { exit: false, auto_scroll: true }
    }

    /// Stops the view.
    pub fn exit(&mut self)
        ensures
            final(self).exit,
            final(self).auto_scroll == old(self).auto_scroll,
    {
        self.exit = true;
    }

    /// Handles a key press: `q` quits, the arrow keys scroll by one line and stop following
    /// the newest line, `a` follows it again; other keys do nothing.
    pub fn handle_key_event(&mut self, key: Key) -> (res: Scroll)
        ensures
            match key {
                Key::Char(c) => {
                    &&& final(self).exit == (old(self).exit || c == 'q')
                    &&& final(self).auto_scroll == (old(self).auto_scroll || c == 'a')
                    &&& res == Scroll::Stay
                },
                Key::Up => {
                    &&& final(self).exit == old(self).exit
                    &&& !final(self).auto_scroll
                    &&& res == Scroll::Up
                },
                Key::Down => {
                    &&& final(self).exit == old(self).exit
                    &&& !final(self).auto_scroll
                    &&& res == Scroll::Down
                },
                Key::Other => {
                    &&& *final(self) == *old(self)
                    &&& res == Scroll::Stay
                },
            },
    {
        match key {
            Key::Char(c) => {
                if c == 'q' {
                    self.exit();
                } else if c == 'a' {
                    self.auto_scroll = true;
                }
                Scroll::Stay
            },
            Key::Up => {
                self.auto_scroll = false;
                Scroll::Up
            },
            Key::Down => {
                self.auto_scroll = false;
                Scroll::Down
            },
            Key::Other => Scroll::Stay,
        }
    }
}

} // verus!
