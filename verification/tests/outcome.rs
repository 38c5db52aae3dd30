use mycelia::outcome::{classify_response, transport_outcome};
use mycelia::FetchOutcome;

#[test]
fn success_status_yields_success_body() {
    let o = classify_response(true, Some("payload"));
    match o {
        FetchOutcome::Success(b) => assert_eq!(b, "payload"),
        FetchOutcome::Failure(_) => panic!("a success status must yield a success outcome"),
    }
}

#[test]
fn error_status_surfaces_raw_body() {
    let o = classify_response(false, Some("unauthorized"));
    match o {
        FetchOutcome::Failure(m) => assert_eq!(m, "unauthorized"),
        FetchOutcome::Success(_) => panic!("a non-success status must yield a failure outcome"),
    }
}

#[test]
fn non_text_body_yields_failure() {
    let o = classify_response(true, None);
    match o {
        FetchOutcome::Failure(m) => assert!(!m.is_empty()),
        FetchOutcome::Success(_) => panic!("a body that is not text must yield a failure"),
    }
}

#[test]
fn transport_failure_message_is_kept() {
    let o = transport_outcome(String::from("connection refused"));
    match o {
        FetchOutcome::Failure(m) => assert_eq!(m, "connection refused"),
        FetchOutcome::Success(_) => panic!("a transport failure is never a success"),
    }
}

#[test]
fn transport_failure_message_is_never_empty() {
    let o = transport_outcome(String::new());
    match o {
        FetchOutcome::Failure(m) => assert!(!m.is_empty()),
        FetchOutcome::Success(_) => panic!("a transport failure is never a success"),
    }
}
