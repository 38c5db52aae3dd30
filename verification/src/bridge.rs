//! The asynchronous fetch bridge: one authenticated GET is dispatched in
//! the background, and its single terminal outcome is handed back through
//! a one-shot channel that the owner polls without blocking.

use vstd::prelude::*;

use crate::outcome::FetchOutcome;

verus! {

/// The receiving end of a standard handoff channel, declared so that a
/// handle to a pending request can be held and passed around; its
/// contents stay opaque.
#[verifier::external_type_specification]
#[verifier::external_body]
#[verifier::reject_recursive_types(T)]
pub struct ExReceiver<T>(std::sync::mpsc::Receiver<T>);

/// Relies on `ehttp::fetch`: it starts the transfer on a background
/// execution context, returns at once, and calls the callback exactly
/// once with the transport result; and on `std::sync::mpsc::channel`:
/// the returned receiver can yield only what the callback sent. The
/// callback itself only moves the result's fields into the verified
/// classification functions of this crate.
#[verifier::external_body]
pub(crate) fn fetch_into_channel(url: &str, api_key: &str) -> (rx: std::sync::mpsc::Receiver<
    FetchOutcome,
>) {
    let (tx, rx) = std::sync::mpsc::channel();
    let mut request = ehttp::Request::get(url);
    request.headers = ehttp::Headers::new(&[("Authorization", &format!("Bearer {}", api_key))]);
    ehttp::fetch(request, move |result| {
        let _ = tx.send(match result {
            Ok(res) => crate::outcome::classify_response(res.ok, res.text()),
            Err(err) => crate::outcome::transport_outcome(err),
        });
    });
    rx
}

/// Relies on `std::sync::mpsc::Receiver::try_recv`: it never blocks, and
/// yields a value only when the sender has delivered one.
#[verifier::external_body]
pub(crate) fn try_recv_outcome(rx: &std::sync::mpsc::Receiver<FetchOutcome>) -> (r: Option<
    FetchOutcome,
>) {
    match rx.try_recv() {
        Ok(outcome) => Some(outcome),
        Err(_) => None,
    }
}

} // verus!
