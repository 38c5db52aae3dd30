//! The application state: the entry list shown to the user, the status
//! line, and the single pending fetch, together with the dispatch and
//! poll steps that drive them.
//!
//! At most one request is outstanding at a time: dispatching again
//! abandons the prior receiver, so the earlier request's outcome can
//! never be observed. One poll consumes at most one outcome, and after a
//! consumption the receiver is gone, so a later poll observes nothing.
//! Both facts are stated as the step predicates below and proved as the
//! `lemma_*` functions at the end of this module.

use vstd::prelude::*;
use vstd::string::StringExecFns;

use crate::bridge::{fetch_into_channel, try_recv_outcome};
use crate::entry::{EditorComponent, Entry, EntryModel};
use crate::json::{decode_error_text, models_of, parse_doc, parse_entries};
use crate::outcome::{FetchOutcome, OutcomeModel};

verus! {

/// A failed fetch as shown in place of the entry list. The two kinds are
/// distinct variants, never conflated.
pub enum LoadError {
    /// The transfer failed, or the server answered with a non-success
    /// status: the message is the transport's description or the raw
    /// response body.
    Fetch(String),
    /// The response arrived but is not a JSON array of entries.
    Decode(String),
}

/// The mathematical value of a [`LoadError`].
#[verifier::ext_equal]
pub ghost enum LoadErrorModel {
    Fetch(Seq<char>),
    Decode(Seq<char>),
}

impl View for LoadError {
    type V = LoadErrorModel;

    open spec fn view(&self) -> LoadErrorModel {
        match self {
            LoadError::Fetch(m) => LoadErrorModel::Fetch(m@),
            LoadError::Decode(m) => LoadErrorModel::Decode(m@),
        }
    }
}

/// The mathematical state of the application. `dispatches` counts the
/// requests dispatched so far, and `pending_req` names the dispatch whose
/// receiver is currently held, when one is.
#[verifier::ext_equal]
pub ghost struct AppModel {
    pub api_key: Seq<char>,
    pub editing: Option<EntryModel>,
    pub viewing: Option<EntryModel>,
    pub status: Option<Result<Seq<char>, LoadErrorModel>>,
    pub entries: Seq<EntryModel>,
    pub pending: bool,
    pub dispatches: nat,
    pub pending_req: nat,
}

/// The application state: the user's key, the editor, the entry shown in
/// the viewing pane, the status shown in place of the list after a fetch,
/// the list itself, and the receiver of the pending request, if any.
pub struct MyceliaApp {
    pub api_key: String,
    pub editor_component: EditorComponent,
    pub view_entry: Option<Entry>,
    pub text: Option<Result<String, LoadError>>,
    pub entries: Vec<Entry>,
    pub rx: Option<std::sync::mpsc::Receiver<FetchOutcome>>,
    pub dispatches: Ghost<nat>,
    pub pending_req: Ghost<nat>,
}

impl View for MyceliaApp {
    type V = AppModel;

    open spec fn view(&self) -> AppModel {
        AppModel {
            api_key: self.api_key@,
            editing: match self.editor_component.entry {
                Some(e) => Some(e@),
                None => None,
            },
            viewing: match self.view_entry {
                Some(e) => Some(e@),
                None => None,
            },
            status: match self.text {
                None => None,
                Some(Ok(s)) => Some(Ok(s@)),
                Some(Err(e)) => Some(Err(e@)),
            },
            entries: models_of(self.entries@),
            pending: self.rx is Some,
            dispatches: self.dispatches@,
            pending_req: self.pending_req@,
        }
    }
}

/// The state holds a receiver only for its most recent dispatch.
pub open spec fn inv(m: AppModel) -> bool {
    m.pending ==> m.pending_req == m.dispatches && m.dispatches >= 1
}

/// One dispatch: a fresh request is started and its receiver replaces any
/// prior one, which is dropped unobserved; everything else is untouched.
pub open spec fn dispatch_step(pre: AppModel, post: AppModel) -> bool {
    &&& post.api_key == pre.api_key
    &&& post.editing == pre.editing
    &&& post.viewing == pre.viewing
    &&& post.status == pre.status
    &&& post.entries == pre.entries
    &&& post.pending
    &&& post.dispatches == pre.dispatches + 1
    &&& post.pending_req == post.dispatches
}

/// The state after one outcome is consumed: a success body that decodes
/// replaces the entry list; one that does not decode clears it and shows
/// the decode failure; a failure outcome keeps the list and shows the
/// failure. The receiver is discarded in every case.
pub open spec fn apply_outcome_model(pre: AppModel, o: OutcomeModel) -> AppModel {
    match o {
        OutcomeModel::Success(body) => match parse_doc(body) {
            Some(es) => AppModel {
                entries: es,
                status: Some(Ok(Seq::empty())),
                pending: false,
                pending_req: 0,
                ..pre
            },
            None => AppModel {
                entries: Seq::empty(),
                status: Some(Err(LoadErrorModel::Decode(decode_error_text()))),
                pending: false,
                pending_req: 0,
                ..pre
            },
        },
        OutcomeModel::Failure(m) => AppModel {
            status: Some(Err(LoadErrorModel::Fetch(m))),
            pending: false,
            pending_req: 0,
            ..pre
        },
    }
}

/// One consuming poll: possible only while no status is shown and a
/// request is pending, and takes the state to the outcome applied.
pub open spec fn consume_step(pre: AppModel, post: AppModel, o: OutcomeModel) -> bool {
    &&& pre.status is None
    &&& pre.pending
    &&& post == apply_outcome_model(pre, o)
}

/// What one poll may do: nothing at all, or consume exactly one outcome.
pub open spec fn poll_step(pre: AppModel, post: AppModel) -> bool {
    post == pre || (exists|o: OutcomeModel| consume_step(pre, post, o))
}

impl Default for MyceliaApp {
    /// A fresh state holding the placeholder key shown before the user
    /// enters one.
    fn default() -> (s: Self)
        ensures
            s@.api_key == "Insert api key"@,
            s@.editing is None,
            s@.viewing is None,
            s@.status is None,
            s@.entries == Seq::<EntryModel>::empty(),
            !s@.pending,
            s@.dispatches == 0,
            s@.pending_req == 0,
            s.wf(),
    {
        MyceliaApp::new(String::from_str("Insert api key"))
    }
}

impl MyceliaApp {
    /// The state's well-formedness.
    pub open spec fn wf(&self) -> bool {
        inv(self@)
    }

    /// A fresh state holding the given key: no entries, no status, no
    /// pending request.
    pub fn new(api_key: String) -> (s: Self)
        ensures
            s@.api_key == api_key@,
            s@.editing is None,
            s@.viewing is None,
            s@.status is None,
            s@.entries == Seq::<EntryModel>::empty(),
            !s@.pending,
            s@.dispatches == 0,
            s@.pending_req == 0,
            s.wf(),
    {
        let s = MyceliaApp {
            api_key,
            editor_component: EditorComponent::default(),
            view_entry: None,
            text: None,
            entries: Vec::new(),
            rx: None,
            dispatches: Ghost(0),
            pending_req: Ghost(0),
        };
        assert(models_of(s.entries@) =~= Seq::<EntryModel>::empty());
        s
    }

    /// Starts one authenticated fetch of the given URL. Any prior pending
    /// request is abandoned: its receiver is dropped and its outcome can
    /// no longer be observed.
    pub fn make_request(&mut self, url: &str)
        ensures
            dispatch_step(old(self)@, final(self)@),
            final(self).wf(),
    {
        let rx = fetch_into_channel(url, self.api_key.as_str());
        self.rx = Some(rx);
        self.dispatches = Ghost(self.dispatches@ + 1);
        self.pending_req = self.dispatches;
    }

    /// The manual reload action: clears the shown status, then dispatches
    /// a fresh request with the current key.
    pub fn reload(&mut self, url: &str)
        ensures
            dispatch_step((AppModel { status: None, ..old(self)@ }), final(self)@),
            final(self)@.status is None,
            final(self).wf(),
    {
        self.text = None;
        self.make_request(url);
    }

    /// Consumes one outcome, as the poll does when one has arrived: a
    /// success body is decoded into the entry list (which is cleared when
    /// the body does not decode), a failure is recorded as the status;
    /// any pending receiver is discarded.
    pub fn apply_outcome(&mut self, outcome: FetchOutcome)
        ensures
            final(self)@ == apply_outcome_model(old(self)@, outcome@),
            final(self).wf(),
    {
        self.rx = None;
        self.pending_req = Ghost(0);
        match outcome {
            FetchOutcome::Success(body) => {
                self.entries = Vec::new();
                assert(models_of(self.entries@) =~= Seq::<EntryModel>::empty());
                match parse_entries(body.as_str()) {
                    Ok(es) => {
                        self.entries = es;
                        self.text = Some(Ok(String::new()));
                    },
                    Err(m) => {
                        self.text = Some(Err(LoadError::Decode(m)));
                    },
                }
            },
            FetchOutcome::Failure(m) => {
                self.text = Some(Err(LoadError::Fetch(m)));
            },
        }
        assert(self@ =~= apply_outcome_model(old(self)@, outcome@));
    }

    /// One non-blocking poll, run once per refresh cycle: consumes the
    /// single outcome when it has arrived, and does nothing when a status
    /// is already shown, no request is pending, or nothing has arrived
    /// yet.
    pub fn poll_fetch(&mut self)
        requires
            old(self).wf(),
        ensures
            poll_step(old(self)@, final(self)@),
            final(self).wf(),
    {
        if self.text.is_none() {
            let received: Option<FetchOutcome> = match &self.rx {
                None => None,
                Some(rx) => try_recv_outcome(rx),
            };
            match received {
                Some(outcome) => {
                    let ghost pre = self@;
                    self.apply_outcome(outcome);
                    proof {
                        assert(consume_step(pre, self@, outcome@));
                    }
                },
                None => {},
            }
        }
    }
}

/// Law: at most one outcome is ever observable per dispatched request.
/// A poll that follows a consuming poll observes nothing and leaves the
/// state exactly as it was.
pub proof fn lemma_second_poll_observes_nothing(
    s1: AppModel,
    s2: AppModel,
    s3: AppModel,
    o: OutcomeModel,
)
    requires
        consume_step(s1, s2, o),
        poll_step(s2, s3),
    ensures
        s3 == s2,
{
    assert(s2.status is Some);
    if s3 != s2 {
        let o2 = choose|o2: OutcomeModel| consume_step(s2, s3, o2);
        assert(s2.status is None);
    }
}

/// Law: consuming a success outcome whose body is the canonical encoding
/// of an entry list replaces the shown entries with exactly that list, in
/// content and order, and shows an empty success status.
pub proof fn lemma_success_round_trip(pre: AppModel, es: Seq<EntryModel>)
    ensures
        apply_outcome_model(pre, OutcomeModel::Success(crate::json::encode_doc(es))).entries == es,
        apply_outcome_model(pre, OutcomeModel::Success(crate::json::encode_doc(es))).status
            == Some(Ok::<Seq<char>, LoadErrorModel>(Seq::<char>::empty())),
{
    crate::json::lemma_decode_of_encode(es);
}

/// Law: consuming a success outcome whose body does not decode clears the
/// entry list — it is neither merged nor left stale — and shows a decode
/// failure, distinct from any fetch failure.
pub proof fn lemma_malformed_body_clears(pre: AppModel, body: Seq<char>)
    requires
        parse_doc(body) is None,
    ensures
        apply_outcome_model(pre, OutcomeModel::Success(body)).entries
            == Seq::<EntryModel>::empty(),
        apply_outcome_model(pre, OutcomeModel::Success(body)).status == Some(
            Err::<Seq<char>, LoadErrorModel>(LoadErrorModel::Decode(decode_error_text())),
        ),
{
}

/// Law: when a second request is dispatched before the first completes,
/// only the second dispatch's receiver is held afterwards, so an outcome
/// consumed later belongs to the second dispatch and the first request's
/// outcome is never the one observed.
pub proof fn lemma_last_dispatch_wins(
    s0: AppModel,
    s1: AppModel,
    s2: AppModel,
    s3: AppModel,
    o: OutcomeModel,
)
    requires
        dispatch_step(s0, s1),
        dispatch_step(s1, s2),
        consume_step(s2, s3, o),
    ensures
        s2.pending_req == s2.dispatches,
        s1.pending_req == s0.dispatches + 1,
        s2.pending_req == s0.dispatches + 2,
        s2.pending_req != s1.pending_req,
{
}

} // verus!
