//! Error types.
use crate::note::{NoteID, Revision};
use crate::text::push_all;
use vstd::prelude::*;

verus! {

/// Declares the parse error of the `url` crate to the verifier; its content is opaque.
#[verifier::external_type_specification]
#[verifier::external_body]
pub struct ExUrlParseError(url::ParseError);

/// Errors of note stores.
#[derive(Debug)]
pub enum NoteStoreError {
    /// The note doesn't exist.
    NoteNotExist(NoteID),
    /// The note is deleted; a revision is needed to resurrect it.
    NoteDeleted(NoteID),
    /// The note already exists.
    NoteIDConflict(NoteID),
    /// The revision of the note doesn't exist.
    RevisionNotExist(NoteID, Revision),
    /// Attempt to update a non-current revision of the note.
    UpdateOldRevision(NoteID, Revision),
    /// Attempt to delete a non-current revision of the note.
    DeleteOldRevision(NoteID, Revision),
    /// Inconsistency detected: the second note is not a child of the first.
    NotAChild(NoteID, NoteID),
    /// Cannot append the second note to the first, because the first is not
    /// the last note in a sequence.
    ExistingNext(NoteID, NoteID),
    /// Cannot delete the note, because it has branches.
    HasBranches(NoteID),
    /// Cannot delete the note, because other notes refer to it.
    HasReferences(NoteID),
    /// The note cannot be parsed.
    ParseError(String),
    /// Error processing the inner content of a note.
    NoteInnerError(String),
    /// The identifier is not a UUID.
    NotUuid(String),
}

/// The view of a [`NoteStoreError`]: the variant, with identifiers and messages as text.
pub enum StoreErrorView {
    NoteNotExist(Seq<char>),
    NoteDeleted(Seq<char>),
    NoteIDConflict(Seq<char>),
    RevisionNotExist(Seq<char>, Seq<char>),
    UpdateOldRevision(Seq<char>, Seq<char>),
    DeleteOldRevision(Seq<char>, Seq<char>),
    NotAChild(Seq<char>, Seq<char>),
    ExistingNext(Seq<char>, Seq<char>),
    HasBranches(Seq<char>),
    HasReferences(Seq<char>),
    ParseError(Seq<char>),
    NoteInnerError(Seq<char>),
    NotUuid(Seq<char>),
}

impl View for NoteStoreError {
    type V = StoreErrorView;

    open spec fn view(&self) -> StoreErrorView {
        match self {
            NoteStoreError::NoteNotExist(a) => StoreErrorView::NoteNotExist(a@),
            NoteStoreError::NoteDeleted(a) => StoreErrorView::NoteDeleted(a@),
            NoteStoreError::NoteIDConflict(a) => StoreErrorView::NoteIDConflict(a@),
            NoteStoreError::RevisionNotExist(a, b) => StoreErrorView::RevisionNotExist(a@, b@),
            NoteStoreError::UpdateOldRevision(a, b) => StoreErrorView::UpdateOldRevision(a@, b@),
            NoteStoreError::DeleteOldRevision(a, b) => StoreErrorView::DeleteOldRevision(a@, b@),
            NoteStoreError::NotAChild(a, b) => StoreErrorView::NotAChild(a@, b@),
            NoteStoreError::ExistingNext(a, b) => StoreErrorView::ExistingNext(a@, b@),
            NoteStoreError::HasBranches(a) => StoreErrorView::HasBranches(a@),
            NoteStoreError::HasReferences(a) => StoreErrorView::HasReferences(a@),
            NoteStoreError::ParseError(a) => StoreErrorView::ParseError(a@),
            NoteStoreError::NoteInnerError(a) => StoreErrorView::NoteInnerError(a@),
            NoteStoreError::NotUuid(a) => StoreErrorView::NotUuid(a@),
        }
    }
}

/// The message that describes a note store error.
pub open spec fn store_error_message(e: StoreErrorView) -> Seq<char> {
    match e {
        StoreErrorView::NoteNotExist(a) => "note `"@ + a + "` doesn't exist"@,
        StoreErrorView::NoteDeleted(a) => "note `"@ + a
            + "` is deleted, revision needed if resurrecting a deleted note"@,
        StoreErrorView::NoteIDConflict(a) => "note `"@ + a + "` already exists"@,
        StoreErrorView::RevisionNotExist(a, b) => "revision`"@ + b + "` of note `"@ + a + "` doesn't exist"@,
        StoreErrorView::UpdateOldRevision(a, b) => "attempt to update non-current revision `"@ + b
            + "` of note `"@ + a + "`"@,
        StoreErrorView::DeleteOldRevision(a, b) => "attempt to delete non-current revision `"@ + b
            + "` of note `"@ + a + "`"@,
        StoreErrorView::NotAChild(a, b) => "inconsistency detected: note `"@ + b
            + "` is not a child of note `"@ + a + "`"@,
        StoreErrorView::ExistingNext(a, b) => "cannot append note `"@ + b + "` to note `"@ + a
            + "`, because note `"@ + a + "` is not the last note in a sequence"@,
        StoreErrorView::HasBranches(a) => "cannot delete note `"@ + a + "`, because it has branches"@,
        StoreErrorView::HasReferences(a) => "cannot delete note `"@ + a
            + "`, because other notes refer to it"@,
        StoreErrorView::ParseError(s) => "note cannot be parsed: `"@ + s + "`"@,
        StoreErrorView::NoteInnerError(_) => "error processing note inner"@,
        StoreErrorView::NotUuid(s) => "note ID `"@ + s + "` is not a UUID"@,
    }
}

impl NoteStoreError {
    /// A description of the error, for people.
    pub fn message(&self) -> (r: String)
        ensures
            r@ == store_error_message(self@),
    {
        let mut s = String::new();
        match self {
            NoteStoreError::NoteNotExist(a) => {
                push_all(&mut s, "note `");
                push_all(&mut s, a.as_str());
                push_all(&mut s, "` doesn't exist");
            },
            NoteStoreError::NoteDeleted(a) => {
                push_all(&mut s, "note `");
                push_all(&mut s, a.as_str());
                push_all(&mut s, "` is deleted, revision needed if resurrecting a deleted note");
            },
            NoteStoreError::NoteIDConflict(a) => {
                push_all(&mut s, "note `");
                push_all(&mut s, a.as_str());
                push_all(&mut s, "` already exists");
            },
            NoteStoreError::RevisionNotExist(a, b) => {
                push_all(&mut s, "revision`");
                push_all(&mut s, b.as_str());
                push_all(&mut s, "` of note `");
                push_all(&mut s, a.as_str());
                push_all(&mut s, "` doesn't exist");
            },
            NoteStoreError::UpdateOldRevision(a, b) => {
                push_all(&mut s, "attempt to update non-current revision `");
                push_all(&mut s, b.as_str());
                push_all(&mut s, "` of note `");
                push_all(&mut s, a.as_str());
                push_all(&mut s, "`");
            },
            NoteStoreError::DeleteOldRevision(a, b) => {
                push_all(&mut s, "attempt to delete non-current revision `");
                push_all(&mut s, b.as_str());
                push_all(&mut s, "` of note `");
                push_all(&mut s, a.as_str());
                push_all(&mut s, "`");
            },
            NoteStoreError::NotAChild(a, b) => {
                push_all(&mut s, "inconsistency detected: note `");
                push_all(&mut s, b.as_str());
                push_all(&mut s, "` is not a child of note `");
                push_all(&mut s, a.as_str());
                push_all(&mut s, "`");
            },
            NoteStoreError::ExistingNext(a, b) => {
                push_all(&mut s, "cannot append note `");
                push_all(&mut s, b.as_str());
                push_all(&mut s, "` to note `");
                push_all(&mut s, a.as_str());
                push_all(&mut s, "`, because note `");
                push_all(&mut s, a.as_str());
                push_all(&mut s, "` is not the last note in a sequence");
            },
            NoteStoreError::HasBranches(a) => {
                push_all(&mut s, "cannot delete note `");
                push_all(&mut s, a.as_str());
                push_all(&mut s, "`, because it has branches");
            },
            NoteStoreError::HasReferences(a) => {
                push_all(&mut s, "cannot delete note `");
                push_all(&mut s, a.as_str());
                push_all(&mut s, "`, because other notes refer to it");
            },
            NoteStoreError::ParseError(m) => {
                push_all(&mut s, "note cannot be parsed: `");
                push_all(&mut s, m.as_str());
                push_all(&mut s, "`");
            },
            NoteStoreError::NoteInnerError(_) => {
                push_all(&mut s, "error processing note inner");
            },
            NoteStoreError::NotUuid(m) => {
                push_all(&mut s, "note ID `");
                push_all(&mut s, m.as_str());
                push_all(&mut s, "` is not a UUID");
            },
        }
        proof {
            reveal_strlit("");
            assert(s@ =~= store_error_message(self@));
        }
        s
    }
}

/// Error type for Notegraf URL parsing.
#[derive(Debug)]
pub enum URLParseError {
    /// Not a valid URL: the `url` crate cannot parse it.
    NotAURL(url::ParseError),
    /// Wrong URL scheme, such as HTTP.
    WrongScheme(String),
    /// The URL cannot be a base, such as a base64 encoded image.
    CannotBeABase,
    /// Not a valid Notegraf URL.
    ///
    /// For example, the first part of the URL might not have any of the expected value.
    SyntaxError(String),
}

} // verus!
