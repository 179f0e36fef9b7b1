use axon::tui::panels::limits::parse_limit;
use axon::tui::panels::Limits;
use axon::tui::session::{
    is_logged_in, on_connection, on_key, on_result, step_redraws, ConnAction, ConnEvent,
    ConnState, KeyStep, Screen, UiStep,
};
use axon::tui::{HandleInput, InputResult, Key};

#[test]
fn ctrl_q_disconnects_or_quits() {
    assert!(matches!(on_key(true, Key::Ctrl('q')), KeyStep::Disconnect));
    assert!(matches!(on_key(false, Key::Ctrl('q')), KeyStep::Quit));
    assert!(matches!(on_key(true, Key::Char('q')), KeyStep::Forward(Key::Char('q'))));
}

#[test]
fn connection_steps() {
    assert!(on_connection(ConnState::Idle, ConnEvent::Offered) == (ConnState::Pending, Screen::Keep, ConnAction::Nothing));
    assert!(on_connection(ConnState::Pending, ConnEvent::Ready) == (ConnState::Established, Screen::Main, ConnAction::Nothing));
    assert!(on_connection(ConnState::Pending, ConnEvent::Failed) == (ConnState::Idle, Screen::Keep, ConnAction::ShowError));
    assert!(on_connection(ConnState::Established, ConnEvent::Failed) == (ConnState::Idle, Screen::Login, ConnAction::ShowError));
    assert!(on_connection(ConnState::Established, ConnEvent::Message) == (ConnState::Established, Screen::Keep, ConnAction::Deliver));
    assert!(on_connection(ConnState::Idle, ConnEvent::Message) == (ConnState::Idle, Screen::Keep, ConnAction::Nothing));
    assert!(is_logged_in(ConnState::Established));
    assert!(!is_logged_in(ConnState::Pending));
}

#[test]
fn answers_and_redrawing() {
    assert!(matches!(on_result(InputResult::Rerender), UiStep::Redraw));
    assert!(matches!(on_result(InputResult::Key(Key::Esc)), UiStep::Nothing));
    match on_result(InputResult::ConnectWith("ws://h".to_string(), "p".to_string())) {
        s @ UiStep::Connect(..) => {
            assert!(!step_redraws(&s));
            if let UiStep::Connect(u, p) = s {
                assert_eq!(u, "ws://h");
                assert_eq!(p, "p");
            }
        }
        _ => panic!("a connection request"),
    }
    assert!(step_redraws(&on_result(InputResult::Close)));
    assert!(!step_redraws(&on_result(InputResult::Open("/d".to_string()))));
}

#[test]
fn limits_commit_and_discard() {
    let mut l = Limits::new("t1".to_string(), Some(10), None);
    assert!(matches!(l.input(Key::Char('0'), 80, 24), InputResult::Rerender));
    assert!(matches!(l.input(Key::Down, 80, 24), InputResult::Rerender));
    assert!(matches!(l.input(Key::Char('5'), 80, 24), InputResult::Rerender));
    match l.input(Key::Char('\n'), 80, 24) {
        InputResult::SetLimits(id, up, down) => {
            assert_eq!(id, "t1");
            assert_eq!(up, Some(100));
            assert_eq!(down, Some(5));
        }
        _ => panic!("the limits"),
    }
    assert!(matches!(l.input(Key::Esc, 80, 24), InputResult::Close));
    let mut bad = Limits::new("t2".to_string(), None, None);
    bad.input(Key::Char('x'), 80, 24);
    assert!(matches!(bad.input(Key::Char('\n'), 80, 24), InputResult::Rerender));
    let mut none = Limits::new("t3".to_string(), Some(-1), None);
    match none.input(Key::Char('\n'), 80, 24) {
        InputResult::SetLimits(_, up, down) => {
            assert_eq!(up, None);
            assert_eq!(down, None);
        }
        _ => panic!("no limits"),
    }
}

#[test]
fn limit_texts_parse() {
    assert_eq!(parse_limit(""), Some(None));
    assert_eq!(parse_limit("0"), Some(Some(0)));
    assert_eq!(parse_limit("9223372036854775807"), Some(Some(i64::MAX)));
    assert_eq!(parse_limit("9223372036854775808"), None);
    assert_eq!(parse_limit("12a"), None);
}
