use std::time::{Duration, Instant};

use mycelia::{LoadError, MyceliaApp};

// Port 1 on the loopback interface refuses connections, so the transfer
// ends in a transport failure without touching any real network.
const UNREACHABLE: &str = "http://127.0.0.1:1/messages";

fn poll_until_status(app: &mut MyceliaApp) {
    let start = Instant::now();
    while app.text.is_none() {
        app.poll_fetch();
        if start.elapsed() > Duration::from_secs(15) {
            panic!("no outcome arrived within fifteen seconds");
        }
    }
}

#[test]
fn transport_failure_reaches_the_poller() {
    let mut app = MyceliaApp::new(String::from("key"));
    app.reload(UNREACHABLE);
    assert!(app.rx.is_some(), "dispatch must leave a pending receiver");
    poll_until_status(&mut app);
    match &app.text {
        Some(Err(LoadError::Fetch(m))) => {
            assert!(!m.is_empty(), "a transport failure carries a description")
        },
        other => panic!("a refused connection must surface as a fetch failure, not {:?}", {
            match other {
                Some(Err(LoadError::Decode(_))) => "a decode failure",
                Some(Ok(_)) => "a success",
                _ => "nothing",
            }
        }),
    }
    assert!(app.rx.is_none(), "the consumed handle is discarded");
    assert!(app.entries.is_empty());
}

#[test]
fn redispatch_yields_exactly_one_outcome() {
    let mut app = MyceliaApp::new(String::from("key"));
    app.reload(UNREACHABLE);
    app.reload(UNREACHABLE);
    poll_until_status(&mut app);
    assert!(matches!(app.text, Some(Err(LoadError::Fetch(_)))));
    // the earlier request's outcome is unobservable: further polls find
    // nothing and change nothing
    let kept = match &app.text {
        Some(Err(LoadError::Fetch(m))) => m.clone(),
        _ => unreachable!(),
    };
    for _ in 0..5 {
        app.poll_fetch();
        match &app.text {
            Some(Err(LoadError::Fetch(m))) => assert_eq!(*m, kept),
            _ => panic!("a second outcome must never be observed"),
        }
        assert!(app.rx.is_none());
    }
}
