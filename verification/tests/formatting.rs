use axon::rpc::{handle_incoming, version_mismatch, Delivery, Incoming, Reply};
use axon::utils::fmt::format_elapsed;
use axon::utils::{
    compare_text, count, count_checked, count_without_styling, decimal_string, is_measurable,
};

#[test]
fn elapsed_under_a_day() {
    assert_eq!(format_elapsed(0), "00:00:00");
    assert_eq!(format_elapsed(59), "00:00:59");
    assert_eq!(format_elapsed(3661), "01:01:01");
    assert_eq!(format_elapsed(86399), "23:59:59");
}

#[test]
fn elapsed_days_and_weeks() {
    assert_eq!(format_elapsed(90061), "1d 01:01:01");
    assert_eq!(format_elapsed(604800), "1w 00:00:00");
    assert_eq!(format_elapsed(604800 + 2 * 86400 + 5), "1w2d 00:00:05");
    assert_eq!(format_elapsed(3 * 604800 + 45296), "3w 12:34:56");
}

#[test]
fn elapsed_negative_is_signed_clock() {
    assert_eq!(format_elapsed(-5), "00:00:-5");
    assert_eq!(format_elapsed(-3725), "-1:-2:-5");
    assert_eq!(format_elapsed(-90000), "-1:00:00");
    assert_eq!(format_elapsed(i64::MIN).len() > 0, true);
}

#[test]
fn decimal_digits() {
    assert_eq!(decimal_string(0), "0");
    assert_eq!(decimal_string(7), "7");
    assert_eq!(decimal_string(8412), "8412");
    assert_eq!(decimal_string(u64::MAX), "18446744073709551615");
}

#[test]
fn width_counts() {
    assert_eq!(count("hello"), 5);
    assert_eq!(count(""), 0);
    assert_eq!(count("日本"), 4);
    assert_eq!(count_without_styling("\x1b[38;5;6mServer\x1b[39m: x"), 9);
    assert_eq!(count_without_styling("plain"), 5);
}

#[test]
fn text_ordering() {
    assert_eq!(compare_text("a", "b"), -1);
    assert_eq!(compare_text("b", "a"), 1);
    assert_eq!(compare_text("abc", "abc"), 0);
    assert_eq!(compare_text("ab", "abc"), -1);
}

#[test]
fn server_versions() {
    assert!(version_mismatch(0, 1).is_none());
    let (source, text) = version_mismatch(0, 2).unwrap();
    assert_eq!(source, "RPC");
    assert_eq!(
        text,
        "Server version Version { major: 0, minor: 2 } incompatible with client 0.1"
    );
    let (_, text) = version_mismatch(1, 1).unwrap();
    assert_eq!(
        text,
        "Server version Version { major: 1, minor: 1 } incompatible with client 0.1"
    );
}

#[test]
fn connection_answers() {
    match handle_incoming(Incoming::Ping) {
        (Reply::Pong, Delivery::Idle) => {}
        _ => panic!("a ping is answered with a pong"),
    }
    match handle_incoming(Incoming::ResourcesExtant(vec!["a".to_string(), "b".to_string()])) {
        (Reply::Subscribe(ids), Delivery::Idle) => assert_eq!(ids, vec!["a", "b"]),
        _ => panic!("new resources are subscribed to"),
    }
    match handle_incoming(Incoming::ResourcesRemoved(vec!["c".to_string()])) {
        (Reply::Unsubscribe(ids), Delivery::Forward) => assert_eq!(ids, vec!["c"]),
        _ => panic!("removed resources are unsubscribed from and reported"),
    }
    match handle_incoming(Incoming::RpcVersion { major: 0, minor: 1 }) {
        (Reply::Nothing, Delivery::Forward) => {}
        _ => panic!("a compatible version is handed on"),
    }
    match handle_incoming(Incoming::RpcVersion { major: 0, minor: 3 }) {
        (Reply::Nothing, Delivery::Fail(source, _)) => assert_eq!(source, "RPC"),
        _ => panic!("an incompatible version ends the connection"),
    }
    match handle_incoming(Incoming::Malformed("bad".to_string())) {
        (Reply::Nothing, Delivery::Fail(source, text)) => {
            assert_eq!(source, "RPC");
            assert_eq!(text, "bad");
        }
        _ => panic!("a malformed frame ends the connection"),
    }
    match handle_incoming(Incoming::Other) {
        (Reply::Nothing, Delivery::Forward) => {}
        _ => panic!("other messages are handed on"),
    }
}

#[test]
fn measuring_checks() {
    assert!(is_measurable("\x1b[1mbold\x1b[m"));
    assert!(!is_measurable("\x1b[1bold"));
    assert_eq!(count_checked("日本a"), Some(5));
}

#[test]
fn plain_text_measures_the_same_with_and_without_styling() {
    for s in ["", "plain", "日本語", "a b\tc", "e\u{301}"] {
        assert_eq!(count_without_styling(s) as usize, count(s));
    }
}
