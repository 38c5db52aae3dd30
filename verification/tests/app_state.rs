use mycelia::{Entry, FetchOutcome, LoadError, MyceliaApp};

fn loaded_app() -> MyceliaApp {
    let mut app = MyceliaApp::new(String::from("key"));
    app.apply_outcome(FetchOutcome::Success(String::from(
        "[{\"id\":\"1\",\"text\":\"hello\"}]",
    )));
    app
}

#[test]
fn fresh_state_is_empty() {
    let app = MyceliaApp::new(String::from("key"));
    assert_eq!(app.api_key, "key");
    assert!(app.entries.is_empty());
    assert!(app.text.is_none());
    assert!(app.rx.is_none());
    assert!(app.view_entry.is_none());
    assert!(app.editor_component.entry.is_none());
}

#[test]
fn success_outcome_loads_entries() {
    let app = loaded_app();
    assert_eq!(app.entries.len(), 1);
    assert_eq!(app.entries[0].id, "1");
    assert_eq!(app.entries[0].text, "hello");
    match &app.text {
        Some(Ok(s)) => assert_eq!(s, ""),
        _ => panic!("a decoded success must show an empty success status"),
    }
    assert!(app.rx.is_none());
}

#[test]
fn malformed_body_clears_entries() {
    let mut app = loaded_app();
    assert_eq!(app.entries.len(), 1);
    app.apply_outcome(FetchOutcome::Success(String::from("not json at all")));
    assert!(app.entries.is_empty(), "the stale list must not survive a decode failure");
    match &app.text {
        Some(Err(LoadError::Decode(m))) => assert!(!m.is_empty()),
        _ => panic!("a malformed body must show a decode failure"),
    }
}

#[test]
fn fetch_failure_keeps_entries() {
    let mut app = loaded_app();
    app.apply_outcome(FetchOutcome::Failure(String::from("boom")));
    assert_eq!(app.entries.len(), 1, "a fetch failure leaves the shown list alone");
    match &app.text {
        Some(Err(LoadError::Fetch(m))) => assert_eq!(m, "boom"),
        _ => panic!("a failure outcome must show a fetch failure"),
    }
}

#[test]
fn error_kinds_are_tagged_differently() {
    let mut app = MyceliaApp::new(String::from("key"));
    app.apply_outcome(FetchOutcome::Success(String::from("garbage")));
    let decode_failure = app.text.take().expect("a consumed outcome shows a status");
    app.apply_outcome(FetchOutcome::Failure(String::from("garbage")));
    let fetch_failure = app.text.take().expect("a consumed outcome shows a status");
    assert!(matches!(decode_failure, Err(LoadError::Decode(_))));
    assert!(matches!(fetch_failure, Err(LoadError::Fetch(_))));
}

#[test]
fn poll_after_consumption_changes_nothing() {
    let mut app = loaded_app();
    let before_len = app.entries.len();
    for _ in 0..5 {
        app.poll_fetch();
        assert_eq!(app.entries.len(), before_len);
        assert!(matches!(app.text, Some(Ok(_))));
        assert!(app.rx.is_none());
    }
}

#[test]
fn poll_without_dispatch_changes_nothing() {
    let mut app = MyceliaApp::new(String::from("key"));
    app.poll_fetch();
    assert!(app.entries.is_empty());
    assert!(app.text.is_none());
    assert!(app.rx.is_none());
}

#[test]
fn editor_holds_and_releases_an_entry() {
    let mut app = MyceliaApp::new(String::from("key"));
    let e = Entry::new(String::from("9"), String::from("note"));
    app.editor_component.edit(e.duplicate());
    let held = app.editor_component.entry.as_ref().expect("the editor holds the entry");
    assert_eq!(held.id, "9");
    assert_eq!(held.text, "note");
    app.editor_component.close();
    assert!(app.editor_component.entry.is_none());
}

#[test]
fn duplicate_copies_both_fields() {
    let e = Entry::new(String::from("a"), String::from("b"));
    let d = e.duplicate();
    assert_eq!(d.id, e.id);
    assert_eq!(d.text, e.text);
}
