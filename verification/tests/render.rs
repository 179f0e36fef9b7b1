use axon::config::Config;
use axon::tui::panels::Login;
use axon::tui::widgets::overlay::{draw_frame, frame_fits};
use axon::tui::panels::login::LoginPanel;
use axon::tui::widgets::{HSplit, OwnedOverlay, Text, VSplit};
use axon::tui::{HandleInput, InputResult, Key, Renderable};
use axon::utils::align::x::{self, Align as _};
use axon::utils::align::y::{self, Align as _};
use axon::utils::color::ColorEscape;

fn drawn<AX: x::Align, AY: y::Align>(
    do_goto: bool,
    text: &str,
    width: u16,
    height: u16,
    x_off: u16,
    y_off: u16,
) -> String {
    let t = Text::<AX, AY>::new(do_goto, text.to_string());
    let mut out = Vec::new();
    t.render(&mut out, width, height, x_off, y_off);
    String::from_utf8(out).unwrap()
}

#[test]
fn text_that_fits_is_written_at_its_place() {
    assert_eq!(drawn::<x::Left, y::Top>(true, "hello", 10, 1, 3, 2), "\x1b[2;3Hhello");
    assert_eq!(drawn::<x::Left, y::Top>(false, "hello", 10, 1, 3, 2), "hello");
    assert_eq!(drawn::<x::Right, y::Top>(true, "abc", 10, 1, 1, 1), "\x1b[1;8Habc");
    assert_eq!(drawn::<x::Center, y::Top>(true, "abc", 10, 1, 1, 1), "\x1b[1;5Habc");
    assert_eq!(drawn::<x::Left, y::Center>(true, "abc", 10, 6, 1, 1), "\x1b[4;1Habc");
}

#[test]
fn text_too_wide_wraps_with_hyphens() {
    assert_eq!(
        drawn::<x::Left, y::Top>(true, "abcdefgh", 4, 3, 1, 1),
        "\x1b[1;1Habc-\x1b[2;1Hdef-\x1b[2;1Hgh"
    );
}

#[test]
fn text_too_wide_for_the_rows_is_cut() {
    assert_eq!(drawn::<x::Left, y::Top>(true, "abcdefgh", 4, 1, 1, 1), "\x1b[1;1Habc…");
}

#[test]
fn text_with_a_short_last_chunk_joins_it() {
    assert_eq!(drawn::<x::Left, y::Top>(true, "abcd", 4, 3, 1, 1), "\x1b[1;1Habcd");
    assert_eq!(
        drawn::<x::Left, y::Top>(true, "abcdefg", 4, 3, 1, 1),
        "\x1b[1;1Habc-\x1b[2;1Hdefg"
    );
}

#[test]
fn text_chunks_close_and_reopen_colors() {
    assert_eq!(
        drawn::<x::Left, y::Top>(true, "\x1b[38;5;1mabcdef\x1b[39m", 4, 2, 1, 1),
        "\x1b[1;1H\x1b[38;5;1mabc\x1b[39m-\x1b[2;1H\x1b[38;5;1mdef\x1b[39m"
    );
    assert_eq!(
        drawn::<x::Left, y::Top>(false, "\x1b[1mabcdef", 4, 2, 1, 1),
        "\x1b[1mabc\x1b[m-\x1b[1mdef"
    );
}

#[test]
fn text_resets_are_not_reopened() {
    assert_eq!(
        drawn::<x::Left, y::Top>(true, "\x1b[1mab\x1b[mcdef", 4, 2, 1, 1),
        "\x1b[1;1H\x1b[1mab\x1b[mc-\x1b[2;1Hdef"
    );
    assert_eq!(
        drawn::<x::Left, y::Top>(false, "\x1b[38;5;1m\x1b[1mab\x1b[39mcdef", 4, 2, 1, 1),
        "\x1b[38;5;1m\x1b[1mab\x1b[39mc\x1b[m-\x1b[1mdef"
    );
}

#[test]
fn alignment_offsets() {
    let lines = ["ab", "abcd"];
    match x::Center::align_offset(&lines, 10) {
        x::Alignment::Each(v) => assert_eq!(v, vec![4, 3]),
        _ => panic!("centered lines have an offset each"),
    }
    match x::CenterLongestLeft::align_offset(&lines, 10) {
        x::Alignment::Single(o) => assert_eq!(o, 3),
        _ => panic!("one offset for the block"),
    }
    assert_eq!(y::Center::align_offset(&lines, 10), 4);
    assert_eq!(y::Top::align_offset(&lines, 10), 0);
}

#[test]
fn left_align_moves_back_and_down() {
    let mut out = Vec::new();
    x::Left::align(&mut out, &["ab", "\x1b[38;5;6mc\x1b[39m"]);
    assert_eq!(
        String::from_utf8(out).unwrap(),
        "ab\x1b[2D\x1b[1B\x1b[38;5;6mc\x1b[39m\x1b[1D\x1b[1B"
    );
}

#[test]
fn login_form_is_centered_a_third_down() {
    let login = Login::new(&Config::default());
    let mut out = Vec::new();
    login.render(&mut out, 80, 24);
    let s = String::from_utf8(out).unwrap();
    assert!(s.starts_with("\x1b[8;24HWelcome to axon, the synapse TUI\x1b[32D\x1b[1B"));
    assert!(s.contains("\x1b[38;5;6mServer\x1b[39m: ws://\x1b[4m:\x1b[24m8412\x1b[18D\x1b[1B"));
    assert!(s.ends_with("Pass: \x1b[6D\x1b[1B"));
}

#[test]
fn colors_are_palette_sequences() {
    assert_eq!(ColorEscape::red().inner(), "\x1b[38;5;1m");
    assert_eq!(ColorEscape::cyan().inner(), "\x1b[38;5;6m");
    assert_eq!(ColorEscape::black().inner(), "\x1b[38;5;0m");
    assert_eq!(ColorEscape::reset().inner(), "\x1b[39m");
    assert_eq!(ColorEscape::red_bg().inner(), "\x1b[48;5;1m");
    assert_eq!(ColorEscape::reset_bg().inner(), "\x1b[49m");
    assert_eq!(ColorEscape::empty().inner(), "");
}

#[test]
fn overlay_frame_without_color_or_name() {
    let mut out = Vec::new();
    let pos = draw_frame(&mut out, 20, 10, (4, 2), None, None, 1, 1);
    assert_eq!(pos, (9, 5));
    let start = "\x1b[38;5;0m\x1b[39m";
    let expected = format!(
        "\x1b[4;8H{s}┌────┐\x1b[5;8H{s}│\x1b[5;13H{s}│\x1b[6;8H{s}│\x1b[6;13H{s}│\x1b[7;8H{s}└────┘",
        s = start
    );
    assert_eq!(String::from_utf8(out).unwrap(), expected);
}

#[test]
fn overlay_frame_with_color_and_name() {
    let mut out = Vec::new();
    let red = ColorEscape::red();
    let pos = draw_frame(&mut out, 10, 4, (6, 1), Some(&red), Some("ab"), 1, 1);
    assert_eq!(pos, (3, 3));
    let expected = "\x1b[2;2H\x1b[38;5;1m┌──ab──┐\x1b[39m\
                    \x1b[3;2H\x1b[38;5;1m│\x1b[39m\x1b[3;9H\x1b[38;5;1m│\x1b[39m\
                    \x1b[4;2H\x1b[38;5;1m└──────┘\x1b[39m";
    assert_eq!(String::from_utf8(out).unwrap(), expected);
}

#[test]
fn owned_overlay_hands_keys_to_the_top_layer() {
    let top = Login::new(&Config::default());
    let mut o = OwnedOverlay::new(top, 7u8, (10, 4), Some(ColorEscape::red()), Some("x".to_string()));
    assert!(matches!(o.input(Key::Down, 80, 24), InputResult::Rerender));
    assert_eq!(o.into_below(), 7);
}

#[test]
fn drawability_checks() {
    let t = Text::<x::Left, y::Top>::new(true, "hello".to_string());
    assert!(t.can_draw(10, 1, 1, 1));
    assert!(!t.can_draw(10, 1, 0, 0));
    let open = Text::<x::Left, y::Top>::new(true, "\x1b[38;5;1red".to_string());
    assert!(!open.can_draw(10, 1, 1, 1));
    let wide = Text::<x::Left, y::Top>::new(true, "abcdefgh".to_string());
    assert!(wide.can_draw(4, 3, 1, 1));
    assert!(!wide.can_draw(4, 3, 1, 0xffff));
    let right = Text::<x::Right, y::Top>::new(true, "abc".to_string());
    assert!(!right.can_draw(10, 1, 0xfffe, 1));
}

#[test]
fn frame_checks() {
    assert!(frame_fits(20, 10, (4, 2), None, 1, 1));
    assert!(!frame_fits(20, 10, (4, 2), Some("much too long"), 1, 1));
    assert!(!frame_fits(2, 2, (4, 2), None, 0, 0));
    assert!(!frame_fits(20, 10, (0xfffe, 2), None, 1, 1));
}

#[test]
fn login_render_check() {
    let login = Login::new(&Config::default());
    assert!(login.can_render(80, 24));
    assert!(!login.can_render(2, 2));
}

#[test]
fn split_dividers() {
    let v = VSplit::new((), (), Some(true), 3, true);
    let mut out = Vec::new();
    assert_eq!(v.render_divider(&mut out, 10, 4, 1, 1), (6, 5));
    assert_eq!(
        String::from_utf8(out).unwrap(),
        "\x1b[1;4H\x1b[38;5;6m│\x1b[39m\x1b[2;4H\x1b[38;5;6m│\x1b[39m\x1b[3;4H│\x1b[4;4H│"
    );
    let h = HSplit::new((), (), Some(false), 2, true);
    let mut out = Vec::new();
    assert_eq!(h.render_divider(&mut out, 4, 10, 1, 1), (7, 4));
    assert_eq!(String::from_utf8(out).unwrap(), "\x1b[3;1H──\x1b[38;5;6m──");
    let plain = HSplit::new((), (), None, 2, false);
    let mut out = Vec::new();
    assert_eq!(plain.render_divider(&mut out, 4, 10, 1, 1), (8, 3));
    assert!(out.is_empty());
}

#[test]
fn split_names() {
    let h = HSplit::new(LoginPanel::new(), Login::new(&Config::default()), None, 1, true);
    assert_eq!(h.name(), "(login ╏ unnamed)");
}
