//! A small client library for fetching a list of text entries from a remote
//! JSON endpoint: an asynchronous fetch bridge polled by a synchronous owner,
//! classification of the transfer result, and a verified decoder for the
//! expected response shape (a JSON array of objects with string fields
//! `id` and `text`).

pub mod app;
pub mod bridge;
pub mod entry;
pub mod json;
pub mod outcome;

pub use app::{AppModel, LoadError, LoadErrorModel, MyceliaApp};
pub use entry::{EditorComponent, Entry, EntryModel};
pub use outcome::{FetchOutcome, OutcomeModel};
