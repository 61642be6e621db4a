//! The decisions of the web API: how requests become arguments of note
//! store operations, and how store errors are answered.
use crate::errors::{NoteStoreError, StoreErrorView};
use crate::notemetadata::{dedup, dedup_texts, texts_of, NoteMetadataEditable};
use crate::notestore::in_memory::lemma_filter_step;
use crate::text::{chars_of, split_chars, split_on, string_of, trim_chars, trimmed};
use vstd::prelude::*;

verus! {

/// The status of an HTTP answer to a request that failed.
#[derive(Debug, PartialEq, Eq)]
pub enum HttpStatus {
    BadRequest,
    NotFound,
    Conflict,
    InternalServerError,
}

/// The status that answers a note store error: a missing note or revision
/// is not found; a request that contradicts the state of the store is a
/// conflict; content that cannot be read is a bad request.
pub open spec fn status_of(e: StoreErrorView) -> HttpStatus {
    match e {
        StoreErrorView::NoteNotExist(_) => HttpStatus::NotFound,
        StoreErrorView::NoteDeleted(_) => HttpStatus::NotFound,
        StoreErrorView::RevisionNotExist(_, _) => HttpStatus::NotFound,
        StoreErrorView::NoteIDConflict(_) => HttpStatus::Conflict,
        StoreErrorView::UpdateOldRevision(_, _) => HttpStatus::Conflict,
        StoreErrorView::DeleteOldRevision(_, _) => HttpStatus::Conflict,
        StoreErrorView::NotAChild(_, _) => HttpStatus::Conflict,
        StoreErrorView::ExistingNext(_, _) => HttpStatus::Conflict,
        StoreErrorView::HasBranches(_) => HttpStatus::Conflict,
        StoreErrorView::HasReferences(_) => HttpStatus::Conflict,
        StoreErrorView::ParseError(_) => HttpStatus::BadRequest,
        StoreErrorView::NoteInnerError(_) => HttpStatus::BadRequest,
        StoreErrorView::NotUuid(_) => HttpStatus::BadRequest,
    }
}

/// The status that answers a note store error.
pub fn error_status(e: &NoteStoreError) -> (r: HttpStatus)
    ensures
        r == status_of(e@),
{
    match e {
        NoteStoreError::NoteNotExist(_) => HttpStatus::NotFound,
        NoteStoreError::NoteDeleted(_) => HttpStatus::NotFound,
        NoteStoreError::RevisionNotExist(_, _) => HttpStatus::NotFound,
        NoteStoreError::NoteIDConflict(_) => HttpStatus::Conflict,
        NoteStoreError::UpdateOldRevision(_, _) => HttpStatus::Conflict,
        NoteStoreError::DeleteOldRevision(_, _) => HttpStatus::Conflict,
        NoteStoreError::NotAChild(_, _) => HttpStatus::Conflict,
        NoteStoreError::ExistingNext(_, _) => HttpStatus::Conflict,
        NoteStoreError::HasBranches(_) => HttpStatus::Conflict,
        NoteStoreError::HasReferences(_) => HttpStatus::Conflict,
        NoteStoreError::ParseError(_) => HttpStatus::BadRequest,
        NoteStoreError::NoteInnerError(_) => HttpStatus::BadRequest,
        NoteStoreError::NotUuid(_) => HttpStatus::BadRequest,
    }
}

/// The tags written in a comma-separated list: each piece without its
/// surrounding white space, empty pieces left out, each tag once.
pub open spec fn tags_in(text: Seq<char>) -> Seq<Seq<char>> {
    dedup(
        split_on(text, ',').map_values(|p: Seq<char>| trimmed(p)).filter(|p: Seq<char>| p.len() > 0),
    )
}

/// Reads the tags of a comma-separated list.
pub fn parse_tags(text: &str) -> (r: Vec<String>)
    ensures
        texts_of(r@) == tags_in(text@),
{
    let cs = chars_of(text);
    let pieces = split_chars(&cs, ',');
    let ghost ps = pieces@.map_values(|t: Vec<char>| t@);
    let ghost tp = ps.map_values(|p: Seq<char>| trimmed(p));
    let ghost f = |p: Seq<char>| p.len() > 0;
    let ghost g = |p: Seq<char>| p;
    let mut kept: Vec<String> = Vec::new();
    let mut i: usize = 0;
    while i < pieces.len()
        invariant
            i <= pieces.len(),
            ps == pieces@.map_values(|t: Vec<char>| t@),
            tp == ps.map_values(|p: Seq<char>| trimmed(p)),
            f == (|p: Seq<char>| p.len() > 0),
            g == (|p: Seq<char>| p),
            texts_of(kept@) == tp.take(i as int).filter(f),
        decreases pieces.len() - i,
    {
        proof {
            lemma_filter_step(tp, f, g, i as int);
        }
        let t = trim_chars(&pieces[i]);
        assert(t@ == tp[i as int]);
        if t.len() > 0 {
            let s = string_of(&t);
            let ghost before = texts_of(kept@);
            kept.push(s);
            assert(texts_of(kept@) =~= before.push(t@));
        }
        i += 1;
    }
    assert(tp.take(pieces.len() as int) =~= tp);
    assert(ps == split_on(text@, ','));
    dedup_texts(&kept)
}

/// What `serde_json` makes of a JSON text: the text it writes back for the
/// value read, or the message of the error met.
pub uninterp spec fn json_reading(text: Seq<char>) -> Result<Seq<char>, Seq<char>>;

/// Reads a JSON text and writes the value back in the canonical form.
///
/// Trusted: `serde_json::from_str` into a `serde_json::Value`, then
/// `serde_json::to_string`, depend on the text alone (objects are kept in
/// key order), which `json_reading` names; writing a `Value` does not fail.
#[verifier::external_body]
fn read_json(text: &str) -> (r: Result<String, String>)
    ensures
        match r {
            Ok(s) => json_reading(text@) == Ok::<Seq<char>, Seq<char>>(s@),
            Err(m) => json_reading(text@) == Err::<Seq<char>, Seq<char>>(m@),
        },
{
    match serde_json::from_str::<serde_json::Value>(text) {
        Ok(v) => Ok(v.to_string()),
        Err(e) => Err(e.to_string()),
    }
}

/// The fields of a note that a client sends to create or update a note.
pub struct NotePostData {
    pub title: String,
    pub note_inner: String,
    pub metadata_tags: String,
    pub metadata_custom_metadata: String,
}

/// The arguments of a note store operation made from what a client sent;
/// the content is still the text the client sent.
pub struct NoteStoreEditArgument {
    pub title: String,
    pub note_inner: String,
    pub metadata: NoteMetadataEditable,
}

impl NoteStoreEditArgument {
    /// The arguments made from what a client sent: the tags are read from the
    /// comma-separated list and the custom metadata must be JSON; both are
    /// set.
    pub fn from_post(note: NotePostData) -> (r: Result<Self, String>)
        ensures
            json_reading(note.metadata_custom_metadata@) is Err ==> (r matches Err(m)
                && json_reading(note.metadata_custom_metadata@) == Err::<Seq<char>, Seq<char>>(m@)),
            json_reading(note.metadata_custom_metadata@) is Ok ==> (r matches Ok(a) && a.title@
                == note.title@ && a.note_inner@ == note.note_inner@ && a.metadata@.tags == Some(
                tags_in(note.metadata_tags@),
            ) && a.metadata@.custom_metadata == Some(
                json_reading(note.metadata_custom_metadata@)->Ok_0,
            )),
    {
        let custom_metadata = match read_json(note.metadata_custom_metadata.as_str()) {
            Ok(c) => c,
            Err(m) => return Err(m),
        };
        let tags = parse_tags(note.metadata_tags.as_str());
        Ok(
            NoteStoreEditArgument {
                title: note.title,
                note_inner: note.note_inner,
                metadata: NoteMetadataEditable { tags: Some(tags), custom_metadata: Some(custom_metadata) },
            },
        )
    }
}

} // verus!
