use axon::rpc::ResourceKind;
use axon::tui::panels::{Focus, Main, ResourceUpdate, Status, Torrent, Tracker};
use axon::tui::{HandleInput, InputResult, Key, Renderable};

fn torrent(id: &str, name: &str, hosts: &[&str]) -> Torrent {
    Torrent {
        id: id.to_string(),
        name: Some(name.to_string()),
        path: format!("/data/{}", name),
        status: Status::Seeding,
        error: None,
        throttle_up: None,
        throttle_down: Some(-1),
        tracker_urls: hosts.iter().map(|h| h.to_string()).collect(),
        ratio_width: 4,
    }
}

fn tracker(id: &str, torrent_id: &str, host: &str, error: Option<&str>) -> Tracker {
    Tracker {
        id: id.to_string(),
        torrent_id: torrent_id.to_string(),
        url: format!("http://{}/announce", host),
        host: host.to_string(),
        error: error.map(|e| e.to_string()),
    }
}

fn panel(names: &[&str]) -> Main {
    let mut m = Main::new(1, 2, 3, 24);
    let updates = names
        .iter()
        .enumerate()
        .map(|(i, n)| ResourceUpdate::Torrent(torrent(&format!("id{}", i), n, &[])))
        .collect();
    m.update_resources(updates);
    m
}

fn names(m: &Main) -> Vec<String> {
    (0..m.torrent_count()).map(|i| m.torrent(i).name.clone().unwrap()).collect()
}

#[test]
fn new_panel_subscribes_in_order() {
    let mut m = Main::new(10, 11, 12, 24);
    let reqs = m.take_requests();
    assert_eq!(reqs.len(), 3);
    assert_eq!(reqs[0].serial, 10);
    assert!(reqs[0].kind == ResourceKind::Server);
    assert_eq!(reqs[1].serial, 11);
    assert!(reqs[1].kind == ResourceKind::Tracker);
    assert_eq!(reqs[2].serial, 12);
    assert!(reqs[2].kind == ResourceKind::Torrent);
    assert!(reqs.iter().all(|r| r.terms.is_empty()));
    assert!(m.take_requests().is_empty());
    assert_eq!(m.server_version(), "?.?");
    assert_eq!(m.name(), "unnamed");
}

#[test]
fn torrents_are_listed_by_natural_name_order() {
    let m = panel(&["b10", "a", "b9"]);
    assert_eq!(names(&m), vec!["a", "b9", "b10"]);
}

#[test]
fn moving_down_and_up() {
    let mut m = panel(&["a", "b", "c"]);
    assert_eq!(m.selected(), 0);
    assert!(matches!(m.input(Key::Char('j'), 80, 24), InputResult::Rerender));
    assert_eq!(m.selected(), 1);
    m.input(Key::Down, 80, 24);
    m.input(Key::Down, 80, 24);
    assert_eq!(m.selected(), 2);
    m.input(Key::Char('k'), 80, 24);
    assert_eq!(m.selected(), 1);
    m.input(Key::Home, 80, 24);
    assert_eq!(m.selected(), 0);
    m.input(Key::End, 80, 24);
    assert_eq!(m.selected(), 2);
}

#[test]
fn paging_by_the_list_height() {
    let many: Vec<String> = (0..60).map(|i| format!("t{:02}", i)).collect();
    let refs: Vec<&str> = many.iter().map(|s| s.as_str()).collect();
    let mut m = panel(&refs);
    m.input(Key::PageDown, 80, 24);
    assert_eq!(m.selected(), 22);
    m.input(Key::PageDown, 80, 24);
    assert_eq!(m.selected(), 44);
    m.input(Key::PageUp, 80, 24);
    assert_eq!(m.selected(), 22);
    m.input(Key::PageDown, 80, 24);
    m.input(Key::PageDown, 80, 24);
    assert_eq!(m.selected(), 59);
}

#[test]
fn details_open_and_close() {
    let mut m = panel(&["a", "b"]);
    m.input(Key::Char('j'), 80, 24);
    assert!(matches!(m.input(Key::Char('d'), 80, 24), InputResult::Rerender));
    assert_eq!(m.detail_count(), 1);
    assert!(m.focus() == Focus::Details);
    assert_eq!(m.detail(0).name(), "b");
    m.input(Key::Char('K'), 80, 24);
    assert!(m.focus() == Focus::Torrents);
    m.input(Key::Char('d'), 80, 24);
    assert_eq!(m.detail_count(), 1);
    m.input(Key::Char('q'), 80, 24);
    assert_eq!(m.detail_count(), 0);
    assert!(m.focus() == Focus::Torrents);
}

#[test]
fn trackers_toggle_twice() {
    let mut m = panel(&["a"]);
    assert!(!m.trackers_shown());
    m.input(Key::Char('t'), 80, 24);
    assert!(m.trackers_shown());
    m.input(Key::Char('t'), 80, 24);
    assert!(!m.trackers_shown());
}

#[test]
fn filter_focus_and_leave() {
    let mut m = panel(&["a"]);
    m.input(Key::Char('f'), 80, 24);
    assert!(m.focus() == Focus::Filter);
    assert!(m.filter_shown());
    m.input(Key::Char('x'), 80, 24);
    assert_eq!(m.filter_line(), "\x1b[38;5;6mFilter[i]: \x1b[39mx\x1b[4m \x1b[24m");
    m.input(Key::Esc, 80, 24);
    assert!(m.focus() == Focus::Torrents);
    assert!(m.filter_shown());
    assert_eq!(m.filter_line(), "Filter[i]: x");
}

#[test]
fn filter_removal_hides_it() {
    let mut m = panel(&["a"]);
    m.take_requests();
    m.input(Key::Char('f'), 80, 24);
    m.input(Key::Char('x'), 80, 24);
    m.input(Key::Ctrl('f'), 80, 24);
    assert!(m.focus() == Focus::Torrents);
    assert!(!m.filter_shown());
    let reqs = m.take_requests();
    let last = reqs.last().unwrap();
    assert_eq!(last.serial, 3);
    assert!(last.terms.is_empty());
}

#[test]
fn unknown_keys_are_handed_back() {
    let mut m = panel(&["a"]);
    assert!(matches!(m.input(Key::Char('z'), 80, 24), InputResult::Key(Key::Char('z'))));
    assert!(matches!(m.input(Key::Char('e'), 80, 24), InputResult::Key(Key::Char('e'))));
}

#[test]
fn errors_of_a_torrent_and_its_trackers() {
    let mut m = Main::new(1, 2, 3, 24);
    let mut t = torrent("t1", "a", &["tr.example"]);
    t.error = Some("boom".to_string());
    m.update_resources(vec![
        ResourceUpdate::Torrent(t),
        ResourceUpdate::Tracker(tracker("k1", "t1", "tr.example", Some("down"))),
    ]);
    match m.input(Key::Char('e'), 80, 24) {
        InputResult::ShowErrors(lines, width) => {
            assert_eq!(lines, vec!["boom", "tr.example: down"]);
            assert_eq!(width, 16);
        }
        _ => panic!("the errors are shown"),
    }
    assert!(m.has_tracker_error(0));
}

#[test]
fn tracker_reports_update_errors() {
    let mut m = Main::new(1, 2, 3, 24);
    m.update_resources(vec![
        ResourceUpdate::Torrent(torrent("t1", "a", &["tr.example"])),
        ResourceUpdate::Tracker(tracker("k1", "t1", "tr.example", None)),
    ]);
    assert!(!m.has_tracker_error(0));
    m.update_resources(vec![ResourceUpdate::TrackerStatus {
        id: "k1".to_string(),
        error: Some("timeout".to_string()),
    }]);
    assert!(m.has_tracker_error(0));
    assert_eq!(m.tracker_count(), 1);
    assert_eq!(m.tracker_row(0), "\x1b[38;5;6m\x1b[48;5;1m1 tr.example\x1b[39m\x1b[49m");
}

#[test]
fn trackers_of_one_host_share_a_row() {
    let mut m = Main::new(1, 2, 3, 24);
    m.update_resources(vec![
        ResourceUpdate::Torrent(torrent("t1", "a", &["tr.example"])),
        ResourceUpdate::Torrent(torrent("t2", "b", &["other.example"])),
        ResourceUpdate::Tracker(tracker("k1", "t1", "tr.example", None)),
        ResourceUpdate::Tracker(tracker("k2", "t2", "tr.example", None)),
    ]);
    assert_eq!(m.tracker_count(), 1);
    assert_eq!(m.tracker_row(0), "\x1b[38;5;6m2 tr.example\x1b[39m");
}

#[test]
fn removed_resources_are_gone() {
    let mut m = panel(&["a", "b", "c"]);
    let ids = vec!["id2".to_string()];
    assert!(m.remove_resources(&ids));
    assert_eq!(names(&m), vec!["a", "b"]);
    assert_eq!(m.selected(), 0);
    m.input(Key::Char('j'), 80, 24);
    let ids = vec!["id1".to_string()];
    m.remove_resources(&ids);
    assert_eq!(names(&m), vec!["a"]);
    assert_eq!(m.selected(), 1);
}

#[test]
fn removing_torrents_above_keeps_the_selection_on_its_torrent() {
    let mut m = panel(&["a", "b", "c", "d"]);
    m.input(Key::Char('j'), 80, 24);
    m.input(Key::Char('j'), 80, 24);
    assert_eq!(m.selected(), 2);
    let ids = vec!["id0".to_string(), "id1".to_string()];
    assert!(m.remove_resources(&ids));
    assert_eq!(names(&m), vec!["c", "d"]);
    assert_eq!(m.selected(), 0);
    assert_eq!(m.torrent(m.selected()).name.as_deref(), Some("c"));
    assert_eq!(m.first_shown(), 0);
}

#[test]
fn changed_torrents_replace_their_entry() {
    let mut m = panel(&["a"]);
    let mut t = torrent("id0", "a", &[]);
    t.status = Status::Paused;
    t.error = Some("disk".to_string());
    m.update_resources(vec![ResourceUpdate::TorrentChanged(t)]);
    assert!(m.torrent(0).status == Status::Paused);
    assert_eq!(m.torrent(0).status.as_str(), "paused");
    let (on, off) = m.torrent_style(0);
    assert_eq!(on, "\x1b[38;5;6m\x1b[48;5;1m");
    assert_eq!(off, "\x1b[39m\x1b[49m");
}

#[test]
fn row_styles() {
    let mut m = panel(&["a", "b"]);
    assert_eq!(m.torrent_name_row(0), "\x1b[38;5;6ma\x1b[39m");
    assert_eq!(m.torrent_name_row(1), "b");
    m.input(Key::Char('f'), 80, 24);
    assert_eq!(m.torrent_name_row(0), "a");
}

#[test]
fn server_version_is_shown() {
    let mut m = panel(&[]);
    assert!(m.rpc_version(0, 1));
    assert_eq!(m.server_version(), "0.1");
}

#[test]
fn column_widths_follow_the_rows_shown() {
    let m = panel(&["a"]);
    let w = m.column_widths();
    assert_eq!(w, (7, 1, 1, 4, 62 + 7 + 1 + 1 + 4));
    assert_eq!(m.stats_layout(120), (true, 120 - 76));
    assert_eq!(m.stats_layout(80), (false, 80));
}

#[test]
fn fitting_a_smaller_height_pulls_the_selection_up() {
    let many: Vec<String> = (0..30).map(|i| format!("t{:02}", i)).collect();
    let refs: Vec<&str> = many.iter().map(|s| s.as_str()).collect();
    let mut m = panel(&refs);
    m.input(Key::PageDown, 80, 24);
    assert_eq!(m.selected(), 22);
    assert_eq!(m.first_shown(), 8);
    m.fit_to_height(10);
    assert_eq!(m.selected(), 15);
    assert_eq!(m.first_shown(), 8);
}

#[test]
fn keys_the_panel_takes() {
    let mut m = panel(&["a"]);
    assert!(m.accepts(Key::Char('j'), 80, 24));
    assert!(!m.accepts(Key::End, 80, 2));
    m.input(Key::Char('f'), 80, 24);
    m.input(Key::Char('s'), 80, 24);
    m.input(Key::Char(':'), 80, 24);
    assert!(!m.accepts(Key::Char('ü'), 80, 24));
    assert!(m.accepts(Key::Char('u'), 80, 24));
    assert!(m.accepts(Key::Esc, 80, 24));
}

#[test]
fn enter_opens_the_selected_torrents_directory() {
    let mut m = panel(&["a", "b"]);
    m.input(Key::Char('j'), 80, 24);
    match m.input(Key::Char('\n'), 80, 24) {
        InputResult::Open(p) => assert_eq!(p, "/data/b"),
        _ => panic!("an open request"),
    }
    assert_eq!(m.selected(), 1);
    let mut empty = Main::new(1, 2, 3, 24);
    assert!(matches!(empty.input(Key::Char('\n'), 80, 24), InputResult::Key(Key::Char('\n'))));
}

#[test]
fn l_opens_the_rate_limits_of_the_selected_torrent() {
    let mut m = Main::new(1, 2, 3, 24);
    let mut t = torrent("x", "a", &[]);
    t.throttle_up = Some(2048);
    t.throttle_down = None;
    m.update_resources(vec![ResourceUpdate::Torrent(t)]);
    match m.input(Key::Char('l'), 80, 24) {
        InputResult::EditLimits(l) => {
            let lines = l.render_lines();
            assert_eq!(lines[0], "Limits in B/s");
            assert_eq!(lines[1], "\x1b[38;5;6mUpload\x1b[39m: 2048\x1b[4m \x1b[24m");
            assert_eq!(lines[2], "Download: ");
        }
        _ => panic!("a rate limit panel"),
    }
}

#[test]
fn page_down_on_a_list_without_rows_keeps_the_selection() {
    let mut m = panel(&["a", "b", "c"]);
    m.input(Key::Char('j'), 80, 24);
    assert!(m.accepts(Key::PageDown, 80, 2));
    assert!(matches!(m.input(Key::PageDown, 80, 2), InputResult::Rerender));
    assert_eq!(m.selected(), 1);
    assert_eq!(m.first_shown(), 0);
}

#[test]
fn layout_of_the_panes() {
    let mut m = panel(&["a", "b", "c"]);
    let l = m.layout(24);
    assert!(!l.trackers && !l.details);
    assert_eq!(l.body_rows, 22);
    assert_eq!(l.list_rows, 22);
    m.input(Key::Char('d'), 80, 24);
    m.input(Key::Char('t'), 80, 24);
    let l = m.layout(24);
    assert!(l.trackers && l.details);
    assert_eq!(l.list_rows, 16);
    assert_eq!(m.rows_shown(2), 2);
    assert_eq!(m.rows_shown(10), 3);
}
