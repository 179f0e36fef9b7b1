//! Components of the terminal interface: keys, what handling one comes to, and the traits
//! that components implement.
use vstd::prelude::*;

pub mod panels;
pub mod session;
pub mod widgets;

verus! {

/// A key press, as the terminal reports it.
#[derive(Clone, Copy, PartialEq, Eq, Structural)]
pub enum Key {
    Backspace,
    Left,
    Right,
    Up,
    Down,
    Home,
    End,
    PageUp,
    PageDown,
    BackTab,
    Delete,
    Insert,
    F(u8),
    Char(char),
    Alt(char),
    Ctrl(char),
    Null,
    Esc,
}

/// What handling a key press comes to.
pub enum InputResult {
    /// The component is done and should be closed.
    Close,
    /// The component changed and should be drawn again.
    Rerender,
    /// Show the component under an overlay that lists `lines`, `width` columns wide; any key
    /// closes the overlay.
    ShowErrors(Vec<String>, u16),
    /// Connect to the server at the URL, with the password.
    ConnectWith(String, String),
    /// The key was not used by any component below the current one.
    Key(Key),
    /// Open the directory at the path.
    Open(String),
    /// Show the rate limit panel over the component.
    EditLimits(crate::tui::panels::Limits),
    /// Set the rate limits of the torrent with the id: upload, then download, in bytes per
    /// second; none is no limit.
    SetLimits(String, Option<i64>, Option<i64>),
}

/// A component that can be drawn.
pub trait Renderable {
    /// The name of the component, as a tab header shows it.
    spec fn title(&self) -> Seq<char>;

    /// The name of the component.
    fn name(&self) -> (r: String)
        ensures
            r@ == self.title(),
    ;
}

/// The name of a component that gives itself none.
pub open spec fn unnamed() -> Seq<char> {
    seq!['u', 'n', 'n', 'a', 'm', 'e', 'd']
}

/// A component that handles key presses.
pub trait HandleInput {
    /// The key presses that the component can handle in its state.
    spec fn accepts_input(&self, k: Key, width: u16, height: u16) -> bool;

    /// What handling `k` in a `width` by `height` box comes to: `next` is the component after
    /// it, `r` the answer.
    spec fn handled(&self, next: &Self, k: Key, width: u16, height: u16, r: InputResult) -> bool;

    fn input(&mut self, k: Key, width: u16, height: u16) -> (r: InputResult)
        requires
            old(self).accepts_input(k, width, height),
        ensures
            old(self).handled(&*final(self), k, width, height, r),
    ;
}

/// A component that can be drawn and handles key presses.
pub trait Component: Renderable + HandleInput {

}

} // verus!
