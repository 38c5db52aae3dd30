//! The terminal value of one dispatched fetch, and the classification of
//! a completed transfer into that value.

use vstd::prelude::*;
use vstd::string::StringExecFns;

verus! {

/// The one terminal value a dispatched fetch produces: the body of a
/// response with a success status, or a failure message. A non-success
/// status yields the raw response body as the message; a transport-level
/// failure yields the transport's description.
pub enum FetchOutcome {
    Success(String),
    Failure(String),
}

/// The mathematical value of a [`FetchOutcome`].
#[verifier::ext_equal]
pub ghost enum OutcomeModel {
    Success(Seq<char>),
    Failure(Seq<char>),
}

impl View for FetchOutcome {
    type V = OutcomeModel;

    open spec fn view(&self) -> OutcomeModel {
        match self {
            FetchOutcome::Success(b) => OutcomeModel::Success(b@),
            FetchOutcome::Failure(m) => OutcomeModel::Failure(m@),
        }
    }
}

/// The message used in place of a response body that is not valid text.
pub open spec fn invalid_body_text() -> Seq<char> {
    "the response body is not valid UTF-8 text"@
}

/// The message used when the transport reports a failure without words.
pub open spec fn unknown_transport_text() -> Seq<char> {
    "the request failed without a description"@
}

/// Classifies a completed transfer. A success status yields the body as
/// the success outcome; any other status yields the body itself as the
/// failure message, so server-provided error text reaches the caller; a
/// body that is not text yields a fixed failure message.
pub fn classify_response(ok: bool, body: Option<&str>) -> (r: FetchOutcome)
    ensures
        ok ==> (body matches Some(b) ==> r@ == OutcomeModel::Success(b@)),
        !ok ==> (body matches Some(b) ==> r@ == OutcomeModel::Failure(b@)),
        body is None ==> r@ == OutcomeModel::Failure(invalid_body_text()),
{
    match body {
        Some(b) => {
            let owned = String::from_str(b);
            if ok {
                FetchOutcome::Success(owned)
            } else {
                FetchOutcome::Failure(owned)
            }
        },
        None => FetchOutcome::Failure(
            String::from_str("the response body is not valid UTF-8 text"),
        ),
    }
}

/// Wraps a transport-level error description as a failure outcome. A
/// fixed message stands in for an empty description, so a transport
/// failure's message is never empty.
pub fn transport_outcome(err: String) -> (r: FetchOutcome)
    ensures
        err@.len() > 0 ==> r@ == OutcomeModel::Failure(err@),
        err@.len() == 0 ==> r@ == OutcomeModel::Failure(unknown_transport_text()),
        r@ matches OutcomeModel::Failure(m) && m.len() > 0,
{
    proof {
        reveal_strlit("the request failed without a description");
    }
    if err.as_str().is_empty() {
        FetchOutcome::Failure(String::from_str("the request failed without a description"))
    } else {
        FetchOutcome::Failure(err)
    }
}

} // verus!
