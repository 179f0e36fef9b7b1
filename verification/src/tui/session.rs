//! The decisions of the event loop: what a key press does before the screen sees it, how the
//! connection to the server moves between its states, and how the screen acts on what a
//! component answers.
use vstd::prelude::*;

use crate::tui::panels::Limits;
use crate::tui::{InputResult, Key};

verus! {

/// What a key press comes to before the current screen handles it.
pub enum KeyStep {
    /// Close the program.
    Quit,
    /// Leave the server and show the login form again.
    Disconnect,
    /// The current screen handles the key.
    Forward(Key),
}

/// `C-q` disconnects from the server where one is connected, and closes the program on the
/// login form; every other key goes to the current screen.
pub fn on_key(logged_in: bool, k: Key) -> (r: KeyStep)
    ensures
        k == Key::Ctrl('q') ==> r == (if logged_in {
            KeyStep::Disconnect
        } else {
            KeyStep::Quit
        }),
        k != Key::Ctrl('q') ==> r == KeyStep::Forward(k),
{
    if k == Key::Ctrl('q') {
        if logged_in {
            KeyStep::Disconnect
        } else {
            KeyStep::Quit
        }
    } else {
        KeyStep::Forward(k)
    }
}

/// Where the connection to the server stands.
#[derive(Clone, Copy, PartialEq, Eq, Structural)]
pub enum ConnState {
    /// None; the login form waits for the user to connect.
    Idle,
    /// A connection is being made.
    Pending,
    /// Connected; the server's messages arrive.
    Established,
}

/// What happened on the connection side.
#[derive(Clone, Copy, PartialEq, Eq, Structural)]
pub enum ConnEvent {
    /// The login form asked for a connection, and it is being made.
    Offered,
    /// The connection being made is ready.
    Ready,
    /// Making the connection, or the connection, failed.
    Failed,
    /// The server sent a message.
    Message,
}

/// What the screen becomes.
#[derive(Clone, Copy, PartialEq, Eq, Structural)]
pub enum Screen {
    /// It stays as it is.
    Keep,
    /// The login form.
    Login,
    /// The main panel of a new connection.
    Main,
}

/// What else a connection event asks for.
#[derive(Clone, Copy, PartialEq, Eq, Structural)]
pub enum ConnAction {
    /// Nothing.
    Nothing,
    /// Show the failure over the screen.
    ShowError,
    /// Hand the message to the screen.
    Deliver,
}

/// One step of the connection: the state after the event `e` in the state `c`, what the screen
/// becomes and what else is to be done. A connection is offered only while idle, becomes
/// established once ready and shows the main panel; a failure while connecting leaves the
/// login form with the error over it, and a failure of an established connection goes back to
/// the login form; messages go to the screen while connected. An event that cannot come in a
/// state changes nothing.
pub fn on_connection(c: ConnState, e: ConnEvent) -> (r: (ConnState, Screen, ConnAction))
    ensures
        c == ConnState::Idle && e == ConnEvent::Offered ==> r == (
            ConnState::Pending,
            Screen::Keep,
            ConnAction::Nothing,
        ),
        c == ConnState::Idle && e == ConnEvent::Failed ==> r == (
            ConnState::Idle,
            Screen::Keep,
            ConnAction::ShowError,
        ),
        c == ConnState::Pending && e == ConnEvent::Ready ==> r == (
            ConnState::Established,
            Screen::Main,
            ConnAction::Nothing,
        ),
        c == ConnState::Pending && e == ConnEvent::Failed ==> r == (
            ConnState::Idle,
            Screen::Keep,
            ConnAction::ShowError,
        ),
        c == ConnState::Established && e == ConnEvent::Failed ==> r == (
            ConnState::Idle,
            Screen::Login,
            ConnAction::ShowError,
        ),
        c == ConnState::Established && e == ConnEvent::Message ==> r == (
            ConnState::Established,
            Screen::Keep,
            ConnAction::Deliver,
        ),
        !(e == ConnEvent::Failed || (c == ConnState::Idle && e == ConnEvent::Offered) || (c
            == ConnState::Pending && e == ConnEvent::Ready) || (c == ConnState::Established && e
            == ConnEvent::Message)) ==> r == (c, Screen::Keep, ConnAction::Nothing),
{
    match (c, e) {
        (ConnState::Idle, ConnEvent::Offered) => (ConnState::Pending, Screen::Keep, ConnAction::Nothing),
        (ConnState::Pending, ConnEvent::Ready) => (ConnState::Established, Screen::Main, ConnAction::Nothing),
        (ConnState::Established, ConnEvent::Failed) => (ConnState::Idle, Screen::Login, ConnAction::ShowError),
        (_, ConnEvent::Failed) => (ConnState::Idle, Screen::Keep, ConnAction::ShowError),
        (ConnState::Established, ConnEvent::Message) => (ConnState::Established, Screen::Keep, ConnAction::Deliver),
        _ => (c, Screen::Keep, ConnAction::Nothing),
    }
}

/// Whether the program counts as logged in while the connection stands at `c`: only while it
/// is established.
pub open spec fn logged_in(c: ConnState) -> bool {
    c == ConnState::Established
}

/// The same, in executable form.
pub fn is_logged_in(c: ConnState) -> (r: bool)
    ensures
        r == logged_in(c),
{
    c == ConnState::Established
}

/// How the screen acts on what a component answered.
pub enum UiStep {
    /// Draw the screen again.
    Redraw,
    /// Ask for a connection to the server at the URL, with the password; the screen stays as
    /// it is.
    Connect(String, String),
    /// Show the lines, the width wide, in a frame over the screen that any key closes.
    ShowErrors(Vec<String>, u16),
    /// Show the rate limit panel over the screen.
    ShowLimits(Limits),
    /// Close the component on top, showing what is below it.
    Close,
    /// Set the rate limits of a torrent (see `InputResult::SetLimits`), then close the
    /// component on top.
    CommitLimits(String, Option<i64>, Option<i64>),
    /// Open the directory at the path; the screen stays as it is.
    Open(String),
    /// Nothing.
    Nothing,
}

/// How the screen acts on the answer `r`: a change redraws it, a connection request is sent
/// on without redrawing, errors and the rate limits are shown over it, a panel that closes, or
/// commits its limits, gives way to what is below it, a directory is opened, and a key that no
/// component used does nothing.
pub fn on_result(r: InputResult) -> (s: UiStep)
    ensures
        r is Rerender ==> s is Redraw,
        r is Key ==> s is Nothing,
        r is Close ==> s is Close,
        r matches InputResult::ConnectWith(u, p) ==> (s matches UiStep::Connect(u2, p2) && u2 == u
            && p2 == p),
        r matches InputResult::ShowErrors(v, w) ==> (s matches UiStep::ShowErrors(v2, w2) && v2
            == v && w2 == w),
        r matches InputResult::EditLimits(l) ==> (s matches UiStep::ShowLimits(l2) && l2 == l),
        r matches InputResult::SetLimits(id, u, d) ==> (s matches UiStep::CommitLimits(id2, u2, d2)
            && id2 == id && u2 == u && d2 == d),
        r matches InputResult::Open(p) ==> (s matches UiStep::Open(p2) && p2 == p),
{
    match r {
        InputResult::Rerender => UiStep::Redraw,
        InputResult::Key(_) => UiStep::Nothing,
        InputResult::Close => UiStep::Close,
        InputResult::ConnectWith(u, p) => UiStep::Connect(u, p),
        InputResult::ShowErrors(v, w) => UiStep::ShowErrors(v, w),
        InputResult::EditLimits(l) => UiStep::ShowLimits(l),
        InputResult::SetLimits(id, u, d) => UiStep::CommitLimits(id, u, d),
        InputResult::Open(p) => UiStep::Open(p),
    }
}

/// Whether acting on `s` draws the screen again.
pub open spec fn redraws(s: UiStep) -> bool {
    !(s is Connect || s is Open || s is Nothing)
}

/// Whether acting on `s` draws the screen again, as `redraws` says.
pub fn step_redraws(s: &UiStep) -> (r: bool)
    ensures
        r == redraws(*s),
{
    match s {
        UiStep::Connect(..) | UiStep::Open(..) | UiStep::Nothing => false,
        _ => true,
    }
}

} // verus!
