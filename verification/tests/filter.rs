use axon::rpc::{Operation, ResourceKind, Scale, Term, Value};
use axon::tui::{HandleInput, InputResult, Key};
use axon::utils::filter::{compute_terms, split_whitespace, Filter, FilterMode};

fn text_of(v: &Value) -> String {
    match v {
        Value::S(s) => s.clone(),
        Value::F { number, .. } => number.clone(),
    }
}

#[test]
fn words_split_on_white_space() {
    assert_eq!(split_whitespace("  a bc\td\n "), vec!["a", "bc", "d"]);
    assert!(split_whitespace("   ").is_empty());
}

#[test]
fn name_words_join_in_order() {
    let terms = compute_terms("foo t:tr.example bar", FilterMode::Insensitive);
    assert_eq!(terms.len(), 2);
    match &terms[0] {
        Term::Ready(c) => {
            assert_eq!(c.field, "tracker_urls");
            assert!(c.op == Operation::Has);
            assert_eq!(text_of(&c.value), "tr.example");
        }
        _ => panic!("a tracker criterion"),
    }
    match &terms[1] {
        Term::Ready(c) => {
            assert_eq!(c.field, "name");
            assert!(c.op == Operation::ILike);
            assert_eq!(text_of(&c.value), "foo bar");
        }
        _ => panic!("a name criterion"),
    }
}

#[test]
fn case_sensitive_names_compare_with_like() {
    let terms = compute_terms("Foo", FilterMode::Sensitive);
    match &terms[0] {
        Term::Ready(c) => assert!(c.op == Operation::Like),
        _ => panic!("a name criterion"),
    }
}

#[test]
fn progress_and_size_terms() {
    let terms = compute_terms("p>50 s<10 s:i", FilterMode::Insensitive);
    assert_eq!(terms.len(), 3);
    match &terms[0] {
        Term::Progress { op, number } => {
            assert!(*op == Some(Operation::GT));
            assert_eq!(number, "50");
        }
        _ => panic!("a progress term"),
    }
    match &terms[1] {
        Term::SizeOrStatus { op, number, status } => {
            assert!(*op == Some(Operation::LTE));
            assert_eq!(number, "10");
            assert!(status.is_none());
        }
        _ => panic!("a size term"),
    }
    match &terms[2] {
        Term::SizeOrStatus { status, .. } => assert_eq!(status.as_deref(), Some("idle")),
        _ => panic!("a status term"),
    }
}

#[test]
fn short_words_and_unknown_trackers_terms() {
    let terms = compute_terms("ab tx:y", FilterMode::Insensitive);
    assert_eq!(terms.len(), 1);
    match &terms[0] {
        Term::Ready(c) => assert_eq!(text_of(&c.value), "ab"),
        _ => panic!("only the name is left"),
    }
}

#[test]
fn resolving_numbers() {
    let mut f = Filter::new(9);
    f.take_requests();
    for c in "p:5 s>x s:e".chars() {
        f.input(Key::Char(c), 80, 24);
    }
    let reqs = f.take_requests();
    let last = reqs.last().unwrap();
    assert_eq!(last.serial, 9);
    assert!(last.kind == ResourceKind::Torrent);
    let crit = last.resolve(&vec![true, false, false]);
    assert_eq!(crit.len(), 1 + 1);
    assert_eq!(crit[0].field, "progress");
    match &crit[0].value {
        Value::F { number, scale } => {
            assert_eq!(number, "5");
            assert!(*scale == Scale::Hundredth);
        }
        _ => panic!("a number"),
    }
    assert_eq!(crit[1].field, "status");
    assert_eq!(text_of(&crit[1].value), "error");
    let sized = last.resolve(&vec![true, true, false]);
    assert_eq!(sized.len(), 3);
}

#[test]
fn filter_edits_ask_again() {
    let mut f = Filter::new(4);
    assert_eq!(f.take_requests().len(), 1);
    assert!(matches!(f.input(Key::Char('a'), 80, 24), InputResult::Rerender));
    assert_eq!(f.take_requests().len(), 1);
    assert!(matches!(f.input(Key::Left, 80, 24), InputResult::Rerender));
    assert!(f.take_requests().is_empty());
    assert!(matches!(f.input(Key::Esc, 80, 24), InputResult::Key(Key::Esc)));
}

#[test]
fn filter_mode_cycles() {
    let mut f = Filter::new(4);
    assert_eq!(f.format(false), "Filter[i]: ");
    f.cycle();
    assert_eq!(f.format(false), "Filter[s]: ");
    f.cycle();
    assert_eq!(f.format(false), "Filter[i]: ");
    f.input(Key::Ctrl('s'), 80, 24);
    assert_eq!(f.format(false), "Filter[s]: ");
}

#[test]
fn filter_reset_asks_for_everything() {
    let mut f = Filter::new(4);
    f.input(Key::Char('z'), 80, 24);
    f.take_requests();
    f.reset();
    assert_eq!(f.format(false), "Filter[i]: ");
    let reqs = f.take_requests();
    assert_eq!(reqs.len(), 1);
    assert!(reqs[0].terms.is_empty());
}

#[test]
fn status_letters_must_be_ascii() {
    assert!(axon::utils::filter::is_readable("s:e foo"));
    assert!(!axon::utils::filter::is_readable("s:é"));
    assert!(axon::utils::filter::is_readable("sé:x"));
    let mut f = Filter::new(1);
    f.input(Key::Char('s'), 80, 24);
    f.input(Key::Char(':'), 80, 24);
    assert!(f.accepts(Key::Char('e'), 80, 24));
    assert!(!f.accepts(Key::Char('é'), 80, 24));
    assert_eq!(f.cursor(), 3);
}

#[test]
fn status_words_name_the_whole_status() {
    let terms = compute_terms("s:pe s:p s:n s:px s:idle s:pending s:q", FilterMode::Insensitive);
    assert_eq!(terms.len(), 7);
    let statuses: Vec<Option<String>> = terms
        .iter()
        .map(|t| match t {
            Term::SizeOrStatus { status, .. } => status.clone(),
            _ => panic!("a status term"),
        })
        .collect();
    assert_eq!(statuses[0].as_deref(), Some("pending"));
    assert_eq!(statuses[1].as_deref(), Some("paused"));
    assert_eq!(statuses[2].as_deref(), Some("pending"));
    assert_eq!(statuses[3].as_deref(), Some("paused"));
    assert_eq!(statuses[4].as_deref(), Some("idle"));
    assert_eq!(statuses[5].as_deref(), Some("pending"));
    assert_eq!(statuses[6], None);
}
