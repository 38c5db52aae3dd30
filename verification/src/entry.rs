//! The record unit served by the remote endpoint, and the small editor
//! state that holds the record currently being edited.

use vstd::prelude::*;

verus! {

/// One server-provided record: an identifier and its text content.
#[derive(Clone)]
pub struct Entry {
    pub id: String,
    pub text: String,
}

/// The mathematical value of an [`Entry`]: its two fields as character
/// sequences.
#[verifier::ext_equal]
pub ghost struct EntryModel {
    pub id: Seq<char>,
    pub text: Seq<char>,
}

impl View for Entry {
    type V = EntryModel;

    open spec fn view(&self) -> EntryModel {
        EntryModel { id: self.id@, text: self.text@ }
    }
}

impl Entry {
    /// Builds an entry from its two fields.
    pub fn new(id: String, text: String) -> (e: Entry)
        ensures
            e@ == (EntryModel { id: id@, text: text@ }),
    {
        Entry { id, text }
    }

    /// Returns a copy of this entry with the same fields.
    pub fn duplicate(&self) -> (e: Entry)
        ensures
            e@ == self@,
    {
        Entry { id: self.id.clone(), text: self.text.clone() }
    }
}

/// Holds the entry currently opened for editing, if any.
pub struct EditorComponent {
    pub entry: Option<Entry>,
}

impl Default for EditorComponent {
    /// Starts with no entry opened.
    fn default() -> (c: Self)
        ensures
            c.entry is None,
    {
        EditorComponent { entry: None }
    }
}

impl EditorComponent {
    /// Opens the given entry for editing, replacing any previous one.
    pub fn edit(&mut self, entry: Entry)
        ensures
            final(self).entry matches Some(e) && e@ == entry@,
    {
        self.entry = Some(entry);
    }

    /// Closes the editor, dropping the entry it held.
    pub fn close(&mut self)
        ensures
            final(self).entry is None,
    {
        self.entry = None;
    }
}

} // verus!
