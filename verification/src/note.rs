//! Core types of Notegraf.
use crate::errors::{NoteStoreError, StoreErrorView};
use crate::text::hex_tail;
use vstd::prelude::*;

verus! {

/// The value of the UUID that `text` denotes, if it denotes one, as
/// `uuid::Uuid::parse_str` reads it (any of the crate's text forms).
pub uninterp spec fn uuid_of(text: Seq<char>) -> Option<u128>;

/// The hyphenated lower-case text of the UUID of value `v`, as `uuid::Uuid`
/// displays it: its 32 hexadecimal digits, most significant first, in groups
/// of 8, 4, 4, 4 and 12 joined by hyphens.
pub open spec fn uuid_hyphenated(v: u128) -> Seq<char> {
    let h = hex_tail(v as nat, 32);
    h.subrange(0, 8) + seq!['-'] + h.subrange(8, 12) + seq!['-'] + h.subrange(12, 16) + seq!['-']
        + h.subrange(16, 20) + seq!['-'] + h.subrange(20, 32)
}

/// Trusted: calls `uuid::Uuid::parse_str` and takes the value of the parsed
/// UUID by `as_u128`; the contract claims only that the result is a function
/// of the text, named [`uuid_of`].
#[verifier::external_body]
fn parse_uuid(text: &str) -> (r: Option<u128>)
    ensures
        r == uuid_of(text@),
{
    match uuid::Uuid::parse_str(text) {
        Ok(u) => Some(u.as_u128()),
        Err(_) => None,
    }
}

/// Trusted: displays `uuid::Uuid::from_u128(v)`. The contract claims that the
/// text is the hyphenated form [`uuid_hyphenated`], and that
/// `uuid::Uuid::parse_str` reads the value back from it, as the crate
/// documents for the forms it writes.
#[verifier::external_body]
fn uuid_text(v: u128) -> (r: String)
    ensures
        r@ == uuid_hyphenated(v),
        uuid_of(r@) == Some(v),
{
    uuid::Uuid::from_u128(v).to_string()
}

/// The outcome of reading `text` as a UUID: its value, or the error that
/// names the text.
pub open spec fn uuid_outcome(text: Seq<char>) -> Result<u128, StoreErrorView> {
    match uuid_of(text) {
        Some(v) => Ok(v),
        None => Err(StoreErrorView::NotUuid(text)),
    }
}

/// The view of a result whose error is a [`NoteStoreError`].
pub open spec fn result_view<A>(r: Result<A, NoteStoreError>) -> Result<A, StoreErrorView> {
    match r {
        Ok(a) => Ok(a),
        Err(e) => Err(e@),
    }
}

/// ID of notes.
///
/// In a given note store, a [`NoteID`] uniquely identifies a note,
/// which can have different revisions ([`Revision`]).
#[derive(Debug, PartialEq, Eq, Hash)]
pub struct NoteID {
    id: String,
}

impl View for NoteID {
    type V = Seq<char>;

    closed spec fn view(&self) -> Seq<char> {
        self.id@
    }
}

impl Clone for NoteID {
    fn clone(&self) -> (r: Self)
        ensures
            r@ == self@,
            r == *self,
    {
        NoteID { id: self.id.clone() }
    }
}

impl NoteID {
    /// Wrap an identifier.
    pub fn new(id: String) -> (r: Self)
        ensures
            r@ == id@,
    {
        NoteID { id }
    }

    /// The identifier as text.
    pub fn as_str(&self) -> (r: &str)
        ensures
            r@ == self@,
    {
        self.id.as_str()
    }

    /// The identifier as an owned string.
    pub fn to_text(&self) -> (r: String)
        ensures
            r@ == self@,
    {
        self.id.clone()
    }

    /// Whether two identifiers are the same.
    pub fn same(&self, other: &NoteID) -> (r: bool)
        ensures
            r == (self@ == other@),
    {
        self.id == other.id
    }

    /// The identifier of a UUID, in its hyphenated form.
    pub fn from_uuid(v: u128) -> (r: Self)
        ensures
            r@ == uuid_hyphenated(v),
            uuid_of(r@) == Some(v),
    {
        NoteID { id: uuid_text(v) }
    }

    /// The UUID the identifier denotes, if any.
    pub fn to_uuid(&self) -> (r: Option<u128>)
        ensures
            r == uuid_of(self@),
    {
        parse_uuid(self.id.as_str())
    }

    /// The UUID the identifier denotes, or the error that it denotes none.
    pub fn try_to_uuid(&self) -> (r: Result<u128, NoteStoreError>)
        ensures
            result_view(r) == uuid_outcome(self@),
    {
        match self.to_uuid() {
            Some(v) => Ok(v),
            None => Err(NoteStoreError::NotUuid(self.id.clone())),
        }
    }
}

/// A revision of a note.
#[derive(Debug, PartialEq, Eq, Hash)]
pub struct Revision {
    revision: String,
}

impl View for Revision {
    type V = Seq<char>;

    closed spec fn view(&self) -> Seq<char> {
        self.revision@
    }
}

impl Clone for Revision {
    fn clone(&self) -> (r: Self)
        ensures
            r@ == self@,
    {
        Revision { revision: self.revision.clone() }
    }
}

impl Revision {
    /// Wrap a revision name.
    pub fn new(revision: String) -> (r: Self)
        ensures
            r@ == revision@,
    {
        Revision { revision }
    }

    /// The revision name as text.
    pub fn as_str(&self) -> (r: &str)
        ensures
            r@ == self@,
    {
        self.revision.as_str()
    }

    /// The revision name as an owned string.
    pub fn to_text(&self) -> (r: String)
        ensures
            r@ == self@,
    {
        self.revision.clone()
    }

    /// Whether two revision names are the same.
    pub fn same(&self, other: &Revision) -> (r: bool)
        ensures
            r == (self@ == other@),
    {
        self.revision == other.revision
    }

    /// The revision named by a UUID, in its hyphenated form.
    pub fn from_uuid(v: u128) -> (r: Self)
        ensures
            r@ == uuid_hyphenated(v),
            uuid_of(r@) == Some(v),
    {
        Revision { revision: uuid_text(v) }
    }

    /// The UUID the revision name denotes, if any.
    pub fn to_uuid(&self) -> (r: Option<u128>)
        ensures
            r == uuid_of(self@),
    {
        parse_uuid(self.revision.as_str())
    }

    /// The UUID the revision name denotes, or the error that it denotes none.
    pub fn try_to_uuid(&self) -> (r: Result<u128, NoteStoreError>)
        ensures
            result_view(r) == uuid_outcome(self@),
    {
        match self.to_uuid() {
            Some(v) => Ok(v),
            None => Err(NoteStoreError::NotUuid(self.revision.clone())),
        }
    }
}

/// A complete note entity for downstream consumption.
///
/// Note properties can be stored as is by a note store, but can also be computed.
pub trait Note<T> {
    fn get_title(&self) -> String;

    fn get_note_inner(&self) -> T;

    fn get_id(&self) -> NoteID;

    fn get_revision(&self) -> Revision;

    /// The note this note is a branch of.
    fn get_parent(&self) -> Option<NoteID>;

    /// The branches of this note.
    fn get_branches(&self) -> Vec<NoteID>;

    /// The note before this one in a sequence.
    fn get_prev(&self) -> Option<NoteID>;

    /// The note after this one in a sequence.
    fn get_next(&self) -> Option<NoteID>;

    /// The notes that refer to this note.
    fn get_references(&self) -> Vec<NoteID>;

    /// The notes this note refers to.
    fn get_referents(&self) -> Vec<NoteID>;

    fn get_metadata(&self) -> crate::notemetadata::NoteMetadata;

    /// Whether this is the current revision of its note.
    fn is_current(&self) -> bool;
}

/// The fields of a note that can be selected for output.
#[derive(Debug, Clone, Copy, PartialEq, Eq)]
pub enum NoteField {
    Title,
    NoteInner,
    ID,
    Revision,
    Parent,
    Branches,
    Prev,
    Next,
    References,
    Referents,
    Metadata,
}

/// The key under which a field of a note is written.
pub open spec fn field_key(f: NoteField) -> Seq<char> {
    match f {
        NoteField::Title => "title"@,
        NoteField::NoteInner => "note_inner"@,
        NoteField::ID => "id"@,
        NoteField::Revision => "revision"@,
        NoteField::Parent => "parent"@,
        NoteField::Branches => "branches"@,
        NoteField::Prev => "prev"@,
        NoteField::Next => "next"@,
        NoteField::References => "references"@,
        NoteField::Referents => "referents"@,
        NoteField::Metadata => "metadata"@,
    }
}

impl NoteField {
    /// The key under which the field is written.
    pub fn key(&self) -> (r: &'static str)
        ensures
            r@ == field_key(*self),
    {
        match self {
            NoteField::Title => "title",
            NoteField::NoteInner => "note_inner",
            NoteField::ID => "id",
            NoteField::Revision => "revision",
            NoteField::Parent => "parent",
            NoteField::Branches => "branches",
            NoteField::Prev => "prev",
            NoteField::Next => "next",
            NoteField::References => "references",
            NoteField::Referents => "referents",
            NoteField::Metadata => "metadata",
        }
    }
}

/// A selection of note fields, in output order.
#[derive(Debug, Clone)]
pub struct NoteFieldSelector {
    pub fields: Vec<NoteField>,
}

/// Every field of a note, in their canonical output order.
pub open spec fn all_note_fields() -> Seq<NoteField> {
    seq![
        NoteField::Title,
        NoteField::NoteInner,
        NoteField::ID,
        NoteField::Revision,
        NoteField::Parent,
        NoteField::Branches,
        NoteField::Prev,
        NoteField::Next,
        NoteField::References,
        NoteField::Referents,
        NoteField::Metadata,
    ]
}

impl NoteFieldSelector {
    pub fn new(fields: Vec<NoteField>) -> (r: Self)
        ensures
            r.fields@ == fields@,
    {
        NoteFieldSelector { fields }
    }
}

impl Default for NoteFieldSelector {
    /// The selector of all fields.
    fn default() -> (r: Self)
        ensures
            r.fields@ == all_note_fields(),
    {
        let fields = vec![
            NoteField::Title,
            NoteField::NoteInner,
            NoteField::ID,
            NoteField::Revision,
            NoteField::Parent,
            NoteField::Branches,
            NoteField::Prev,
            NoteField::Next,
            NoteField::References,
            NoteField::Referents,
            NoteField::Metadata,
        ];
        assert(fields@ =~= all_note_fields());
        NoteFieldSelector::new(fields)
    }
}

/// A note together with the selection of its fields to be output.
pub struct NoteSerializable<N> {
    pub s: NoteFieldSelector,
    pub n: N,
}

impl<N> NoteSerializable<N> {
    /// Select every field of `note`.
    pub fn all_fields(note: N) -> (r: Self)
        ensures
            r.s.fields@ == all_note_fields(),
            r.n == note,
    {
        NoteSerializable { s: NoteFieldSelector::default(), n: note }
    }
}

/// The view of a [`NoteLocator`]: a note identifier and, for a specific
/// revision, its name.
pub struct LocatorView {
    pub id: Seq<char>,
    pub revision: Option<Seq<char>>,
}

/// The UUIDs a locator names: an error for the note identifier if it is not a
/// UUID, else for the revision name if there is one and it is not a UUID.
pub open spec fn locator_uuids(l: LocatorView) -> Result<(u128, Option<u128>), StoreErrorView> {
    match uuid_outcome(l.id) {
        Err(e) => Err(e),
        Ok(i) => match l.revision {
            None => Ok((i, None)),
            Some(rev) => match uuid_outcome(rev) {
                Err(e) => Err(e),
                Ok(v) => Ok((i, Some(v))),
            },
        },
    }
}

/// A type for locating a note.
#[derive(Debug)]
pub enum NoteLocator {
    Current(NoteID),
    Specific(NoteID, Revision),
}

impl View for NoteLocator {
    type V = LocatorView;

    open spec fn view(&self) -> LocatorView {
        match self {
            NoteLocator::Current(id) => LocatorView { id: id@, revision: None },
            NoteLocator::Specific(id, rev) => LocatorView { id: id@, revision: Some(rev@) },
        }
    }
}

impl Clone for NoteLocator {
    fn clone(&self) -> (r: Self)
        ensures
            r@ == self@,
    {
        match self {
            NoteLocator::Current(id) => NoteLocator::Current(id.clone()),
            NoteLocator::Specific(id, rev) => NoteLocator::Specific(id.clone(), rev.clone()),
        }
    }
}

impl NoteLocator {
    /// Get ID of the locator.
    pub fn get_id(&self) -> (r: &NoteID)
        ensures
            r@ == self@.id,
    {
        match self {
            NoteLocator::Current(id) => id,
            NoteLocator::Specific(id, _) => id,
        }
    }

    /// Get revision of the locator.
    ///
    /// If the locator is not specifying a revision, returns `None`.
    pub fn get_revision(&self) -> (r: Option<&Revision>)
        ensures
            r is Some <==> self@.revision is Some,
            r matches Some(rev) ==> rev@ == self@.revision->0,
    {
        if let NoteLocator::Specific(_, rev) = self {
            Some(rev)
        } else {
            None
        }
    }

    /// Return a ([`NoteID`], [`Revision`]) tuple.
    pub fn unpack(&self) -> (r: (&NoteID, Option<&Revision>))
        ensures
            r.0@ == self@.id,
            r.1 is Some <==> self@.revision is Some,
            r.1 matches Some(rev) ==> rev@ == self@.revision->0,
    {
        (self.get_id(), self.get_revision())
    }

    /// The UUIDs of the note and of the revision, if the locator names one;
    /// an error for the first of them that is not a UUID.
    pub fn unpack_uuid(&self) -> (r: Result<(u128, Option<u128>), NoteStoreError>)
        ensures
            result_view(r) == locator_uuids(self@),
    {
        let (id, revision) = self.unpack();
        let i = id.try_to_uuid()?;
        match revision {
            None => Ok((i, None)),
            Some(rev) => {
                let v = rev.try_to_uuid()?;
                Ok((i, Some(v)))
            },
        }
    }

    /// Get a locator to point at a specific revision of the same note.
    pub fn at_revision(&self, r: &Revision) -> (loc: Self)
        ensures
            loc@ == (LocatorView { id: self@.id, revision: Some(r@) }),
    {
        NoteLocator::Specific(self.get_id().clone(), r.clone())
    }

    /// Get a locator to point at the current revision of the same note.
    pub fn current(&self) -> (loc: Self)
        ensures
            loc@ == (LocatorView { id: self@.id, revision: None }),
    {
        NoteLocator::Current(self.get_id().clone())
    }
}

} // verus!
