use axon::tui::panels::login::LoginPanel;
use axon::tui::panels::Login;
use axon::config::Config;
use axon::tui::widgets::{
    BorrowedSameTabs, CloseOnInput, IgnoreRpc, Input, PasswordInput, RenderFn, RenderStateFn,
    Tabs,
};
use axon::tui::{HandleInput, InputResult, Key, Renderable};

const UL: &str = "\x1b[4m";
const NO_UL: &str = "\x1b[24m";

fn typed(text: &str) -> Input {
    let mut i = Input::with_capacity(8);
    for c in text.chars() {
        i.push(c);
    }
    i
}

#[test]
fn input_from_places_cursor() {
    let i = Input::from("hello".to_string(), None);
    assert_eq!(i.inner(), "hello");
    assert_eq!(i.format_active(), format!("hello{} {}", UL, NO_UL));
    let j = Input::from("hello".to_string(), Some(2));
    assert_eq!(j.format_active(), format!("h{}e{}llo", UL, NO_UL));
}

#[test]
fn input_typing_inserts_at_cursor() {
    let mut i = typed("ac");
    i.cursor_left();
    i.push('b');
    assert_eq!(i.inner(), "abc");
    assert_eq!(i.format_active(), format!("ab{}c{}", UL, NO_UL));
}

#[test]
fn input_backspace_and_delete() {
    let mut i = typed("abcd");
    i.backspace();
    assert_eq!(i.inner(), "abc");
    i.home();
    i.delete();
    assert_eq!(i.inner(), "bc");
    i.backspace();
    assert_eq!(i.inner(), "bc");
    i.end();
    i.delete();
    assert_eq!(i.inner(), "bc");
}

#[test]
fn input_edits_whole_clusters() {
    let mut i = Input::from("e\u{301}x".to_string(), None);
    i.cursor_left();
    i.backspace();
    assert_eq!(i.inner(), "x");
}

#[test]
fn input_cursor_stays_in_bounds() {
    let mut i = typed("ab");
    i.cursor_right();
    i.cursor_right();
    assert_eq!(i.format_active(), format!("ab{} {}", UL, NO_UL));
    i.home();
    i.cursor_left();
    assert_eq!(i.format_active(), format!("{}a{}b", UL, NO_UL));
}

#[test]
fn input_left_then_right_restores_cursor() {
    let mut i = Input::from("abc".to_string(), Some(3));
    let before = i.format_active();
    i.cursor_left();
    i.cursor_right();
    assert_eq!(i.format_active(), before);
}

#[test]
fn input_end_counts_bytes() {
    let mut i = Input::from("é".to_string(), Some(1));
    i.end();
    assert_eq!(i.format_active(), format!("é{} {}", UL, NO_UL));
    i.cursor_left();
    assert_eq!(i.format_active(), format!("é{} {}", UL, NO_UL));
}

#[test]
fn input_clear_empties() {
    let mut i = typed("abc");
    i.clear();
    assert_eq!(i.inner(), "");
    assert_eq!(i.format_inactive(), "");
}

#[test]
fn input_edit_keys() {
    let mut i = typed("ab");
    i.edit(Key::Home);
    i.edit(Key::Char('x'));
    assert_eq!(i.inner(), "xab");
    i.edit(Key::Delete);
    assert_eq!(i.inner(), "xb");
}

#[test]
fn password_input_shows_stars() {
    let mut p = PasswordInput::with_capacity(4);
    p.push('s');
    p.push('e');
    p.push('c');
    assert_eq!(p.inner(), "sec");
    assert_eq!(p.format_inactive(), "***");
    assert_eq!(p.format_active(), format!("***{} {}", UL, NO_UL));
    let q = PasswordInput::from("ab".to_string(), Some(1));
    assert_eq!(q.format_active(), format!("{}*{}*", UL, NO_UL));
}

#[test]
fn tabs_name_and_count() {
    let mut tabs = Tabs::new(vec![LoginPanel::new()], 0);
    assert_eq!(tabs.n_tabs(), 1);
    assert_eq!(tabs.name(), "login");
    tabs.push(LoginPanel::new());
    assert_eq!(tabs.n_tabs(), 2);
    assert_eq!(tabs.name(), "tabs: login | login");
    let empty: Tabs<LoginPanel> = Tabs::new(Vec::new(), 0);
    assert_eq!(empty.name(), "tabs: ");
}

#[test]
fn component_names() {
    assert_eq!(LoginPanel::new().name(), "login");
    assert_eq!(Login::new(&Config::default()).name(), "unnamed");
}

#[test]
fn close_on_trigger_keys() {
    let keys = [Key::Esc, Key::Char('q')];
    let mut c = CloseOnInput::new(0u8, &keys);
    assert!(matches!(c.input(Key::Esc, 10, 10), InputResult::Close));
    assert!(matches!(c.input(Key::Char('q'), 10, 10), InputResult::Close));
    assert!(matches!(c.input(Key::Char('x'), 10, 10), InputResult::Rerender));
    let mut any = CloseOnInput::new(0u8, &[]);
    assert!(matches!(any.input(Key::Char('x'), 10, 10), InputResult::Close));
}

#[test]
fn ignore_rpc_never_rerenders() {
    let mut w = IgnoreRpc::new(5u8);
    assert!(!w.rpc("anything"));
    assert_eq!(*w.inner(), 5);
}

#[test]
fn render_functions_carry_their_state() {
    let f = RenderFn::new(|t: &mut Vec<u8>, w: u16, _: u16, _: u16, _: u16| t.push(w as u8));
    let mut out = Vec::new();
    (f.inner())(&mut out, 7, 0, 0, 0);
    assert_eq!(out, vec![7]);
    let mut g = RenderStateFn::new(|_: &mut Vec<u8>, _: u16, _: u16, _: u16, _: u16, s: &mut u32| *s += 1, 0u32);
    {
        let (fun, state) = g.parts();
        fun(&mut out, 0, 0, 0, 0, state);
    }
    let (_, state) = g.parts();
    assert_eq!(*state, 1);
}

#[test]
fn same_tabs_header_shares_the_lines() {
    let mut tabs = vec![LoginPanel::new(), LoginPanel::new()];
    let t = BorrowedSameTabs::new(&mut tabs, 0);
    let mut out = Vec::new();
    t.render_header(&mut out, 20, 1, 1);
    let expected = "\x1b[1;1H\x1b[38;5;6m───login───\x1b[39m───login─";
    assert_eq!(String::from_utf8(out).unwrap(), expected);
    assert_eq!(t.active_idx(), 0);
}

#[test]
fn same_tabs_header_marks_the_active_tab() {
    let mut tabs = vec![LoginPanel::new(), LoginPanel::new()];
    let t = BorrowedSameTabs::new(&mut tabs, 1);
    let mut out = Vec::new();
    t.render_header(&mut out, 20, 2, 3);
    let expected = "\x1b[3;2H───login───\x1b[38;5;6m───login─\x1b[39m";
    assert_eq!(String::from_utf8(out).unwrap(), expected);
}

#[test]
fn login_takes_edit_keys() {
    let l = Login::new(&Config::default());
    assert!(l.accepts(Key::Char('x')));
    assert!(l.accepts(Key::End));
    assert!(l.accepts(Key::Char('\n')));
}

#[test]
fn same_tabs_header_check() {
    let mut tabs = vec![LoginPanel::new(), LoginPanel::new()];
    let t = BorrowedSameTabs::new(&mut tabs, 0);
    assert!(t.can_draw_header(20, 1, 1));
    assert!(!t.can_draw_header(20, 0, 0));
    let mut none: Vec<LoginPanel> = Vec::new();
    let e = BorrowedSameTabs::new(&mut none, 0);
    assert!(!e.can_draw_header(20, 1, 1));
}

#[test]
fn home_then_end() {
    let mut i = Input::from("aé".to_string(), Some(2));
    i.home();
    assert_eq!(i.format_active(), format!("{}a{}é", UL, NO_UL));
    i.end();
    assert_eq!(i.inner(), "aé");
    assert_eq!(i.cursor_pos(), 4);
}

#[test]
fn typing_then_backspace_gives_the_input_back() {
    let mut i = axon::tui::widgets::Input::from("abc".to_string(), Some(2));
    i.push('x');
    assert_eq!(i.inner(), "axbc");
    i.backspace();
    assert_eq!(i.inner(), "abc");
    assert_eq!(i.cursor_pos(), 2);
}
