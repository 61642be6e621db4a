//! The decisions the PostgreSQL note store takes between its queries: the
//! rows it writes, the revisions it derives and the errors it answers.
use crate::errors::{NoteStoreError, StoreErrorView};
use crate::note::{uuid_hyphenated, uuid_of, Note, NoteID, NoteLocator, Revision};
use crate::notestore::postgresql::PostgreSQLNote;
use crate::notemetadata::{
    copy_texts, dedup, dedup_texts, texts_of, updated, MetadataView, NoteMetadata,
    NOTE_METADATA_CURRENT_SCHEMA_VERSION,
};
use crate::notetype::plain::lemma_dedup_of_distinct;
use crate::notetype::{ids_of, NoteType};
use vstd::prelude::*;

verus! {

/// A revision of a note as the store edits it before writing it: the note,
/// the revision and the linked notes are UUID values.
pub struct PostgreSQLNoteEditable<T> {
    pub id: u128,
    pub revision: u128,
    pub title: String,
    pub note_inner: T,
    pub parent: Option<u128>,
    pub prev: Option<u128>,
    pub metadata: NoteMetadata,
}

/// A row of the table of revisions. Times are nanoseconds since the Unix
/// epoch; the custom metadata is a JSON text.
pub struct PostgreSQLNoteRow {
    pub revision: u128,
    pub id: u128,
    pub title: String,
    pub note_inner: String,
    pub parent: Option<u128>,
    pub prev: Option<u128>,
    pub referents: Vec<u128>,
    pub metadata_schema_version: i64,
    pub metadata_created_at: i128,
    pub metadata_modified_at: i128,
    pub metadata_tags: Vec<String>,
    pub metadata_custom_metadata: String,
}

/// The UUID values of texts that all denote one.
pub open spec fn uuids_of(ids: Seq<Seq<char>>) -> Seq<u128> {
    ids.map_values(|x: Seq<char>| uuid_of(x)->0)
}

/// Whether `row` holds the revision `n`, with the UUIDs of the notes it
/// refers to.
pub open spec fn row_holds<T: NoteType>(row: PostgreSQLNoteRow, n: PostgreSQLNoteEditable<T>) -> bool {
    &&& row.revision == n.revision
    &&& row.id == n.id
    &&& row.title@ == n.title@
    &&& row.note_inner@ == T::stored_text(n.note_inner@)
    &&& row.parent == n.parent
    &&& row.prev == n.prev
    &&& row.metadata_schema_version == n.metadata.schema_version as i64
    &&& row.metadata_created_at == n.metadata.created_at
    &&& row.metadata_modified_at == n.metadata.modified_at
    &&& texts_of(row.metadata_tags@) == texts_of(n.metadata.tags@)
    &&& row.metadata_custom_metadata@ == n.metadata.custom_metadata@
    &&& exists|ids: Seq<Seq<char>>|
        #![trigger uuids_of(ids)]
        ids.no_duplicates() && ids.to_set() == T::referent_ids(n.note_inner@) && row.referents@
            == uuids_of(ids)
}

impl PostgreSQLNoteRow {
    /// The row that writes the revision `n`. It fails where the notes the
    /// content refers to cannot be read, or one of them is not a UUID.
    pub fn try_from<T: NoteType>(n: PostgreSQLNoteEditable<T>) -> (r: Result<
        PostgreSQLNoteRow,
        NoteStoreError,
    >)
        ensures
            r is Ok <==> T::readable(n.note_inner@) && forall|x: Seq<char>|
                #[trigger] T::referent_ids(n.note_inner@).contains(x) ==> uuid_of(x) is Some,
            r matches Ok(row) ==> row_holds(row, n),
            r matches Err(e) ==> if T::readable(n.note_inner@) {
                exists|x: Seq<char>|
                    #[trigger] T::referent_ids(n.note_inner@).contains(x) && uuid_of(x) is None
                        && e@ == StoreErrorView::NotUuid(x)
            } else {
                e@ is NoteInnerError
            },
    {
        let referents = match n.note_inner.get_referents() {
            Ok(r) => r,
            Err(e) => {
                return Err(NoteStoreError::NoteInnerError(T::error_message(&e)));
            },
        };
        let ghost ids = ids_of(referents@);
        let mut uuids: Vec<u128> = Vec::new();
        let mut i: usize = 0;
        while i < referents.len()
            invariant
                i <= referents.len(),
                ids == ids_of(referents@),
                ids.to_set() == T::referent_ids(n.note_inner@),
                T::readable(n.note_inner@),
                forall|j: int| 0 <= j < i ==> uuid_of(#[trigger] ids[j]) is Some,
                uuids@ == uuids_of(ids.take(i as int)),
            decreases referents.len() - i,
        {
            match referents[i].to_uuid() {
                Some(v) => {
                    proof {
                        assert(uuids_of(ids.take(i + 1)) =~= uuids_of(ids.take(i as int)).push(v));
                    }
                    uuids.push(v);
                },
                None => {
                    assert(ids.to_set().contains(ids[i as int]));
                    assert(T::referent_ids(n.note_inner@).contains(ids[i as int]));
                    return Err(NoteStoreError::NotUuid(referents[i].to_text()));
                },
            }
            i += 1;
        }
        proof {
            assert(ids.take(referents.len() as int) =~= ids);
            assert forall|x: Seq<char>| #[trigger]
                T::referent_ids(n.note_inner@).contains(x) implies uuid_of(x) is Some by {
                assert(ids.to_set().contains(x));
                let j = choose|j: int| 0 <= j < ids.len() && ids[j] == x;
                assert(uuid_of(ids[j]) is Some);
            }
        }
        let note_inner = n.note_inner.to_text();
        let tags = copy_texts(&n.metadata.tags);
        let row = PostgreSQLNoteRow {
            revision: n.revision,
            id: n.id,
            title: n.title,
            note_inner,
            parent: n.parent,
            prev: n.prev,
            referents: uuids,
            metadata_schema_version: n.metadata.schema_version as i64,
            metadata_created_at: n.metadata.created_at,
            metadata_modified_at: n.metadata.modified_at,
            metadata_tags: tags,
            metadata_custom_metadata: n.metadata.custom_metadata,
        };
        assert(uuids_of(ids) == row.referents@);
        Ok(row)
    }
}

/// The metadata a row holds.
pub open spec fn row_metadata(row: PostgreSQLNoteRow) -> MetadataView {
    MetadataView {
        schema_version: row.metadata_schema_version as u64,
        created_at: row.metadata_created_at,
        modified_at: row.metadata_modified_at,
        tags: dedup(texts_of(row.metadata_tags@)),
        custom_metadata: row.metadata_custom_metadata@,
    }
}

impl<T: NoteType> PostgreSQLNoteEditable<T> {
    /// The revision a row holds, whose content is `note_inner` (read from the
    /// row's text by the caller).
    pub fn from_row(row: PostgreSQLNoteRow, note_inner: T) -> (r: Self)
        ensures
            r.id == row.id,
            r.revision == row.revision,
            r.title@ == row.title@,
            r.note_inner == note_inner,
            r.parent == row.parent,
            r.prev == row.prev,
            r.metadata@ == row_metadata(row),
    {
        let tags = dedup_texts(&row.metadata_tags);
        PostgreSQLNoteEditable {
            id: row.id,
            revision: row.revision,
            title: row.title,
            note_inner,
            parent: row.parent,
            prev: row.prev,
            metadata: NoteMetadata {
                schema_version: row.metadata_schema_version as u64,
                created_at: row.metadata_created_at,
                modified_at: row.metadata_modified_at,
                tags,
                custom_metadata: row.metadata_custom_metadata,
            },
        }
    }

    /// The first revision of a new note: it has no parent and no previous
    /// note.
    pub fn first(id: u128, revision: u128, title: String, note_inner: T, metadata: NoteMetadata) -> (r: Self)
        ensures
            r.id == id,
            r.revision == revision,
            r.title == title,
            r.note_inner == note_inner,
            r.parent is None,
            r.prev is None,
            r.metadata == metadata,
    {
        PostgreSQLNoteEditable { id, revision, title, note_inner, parent: None, prev: None, metadata }
    }

    /// The revision with the given edits: a field given replaces the old one.
    pub fn edited(self, title: Option<String>, note_inner: Option<T>, metadata: Option<NoteMetadata>) -> (r: Self)
        ensures
            r.id == self.id,
            r.revision == self.revision,
            r.title == (match title {
                Some(t) => t,
                None => self.title,
            }),
            r.note_inner == (match note_inner {
                Some(n) => n,
                None => self.note_inner,
            }),
            r.parent == self.parent,
            r.prev == self.prev,
            r.metadata == (match metadata {
                Some(m) => m,
                None => self.metadata,
            }),
    {
        let mut note = self;
        if let Some(t) = title {
            note.title = t;
        }
        if let Some(n) = note_inner {
            note.note_inner = n;
        }
        if let Some(m) = metadata {
            note.metadata = m;
        }
        note
    }

    /// The revision placed after the note of value `prev` in a sequence.
    pub fn with_prev(self, prev: u128) -> (r: Self)
        ensures
            r.prev == Some(prev),
            r.id == self.id,
            r.revision == self.revision,
            r.title == self.title,
            r.note_inner == self.note_inner,
            r.parent == self.parent,
            r.metadata == self.metadata,
    {
        let mut note = self;
        note.prev = Some(prev);
        note
    }

    /// The revision made a branch of the note of value `parent`.
    pub fn with_parent(self, parent: u128) -> (r: Self)
        ensures
            r.parent == Some(parent),
            r.id == self.id,
            r.revision == self.revision,
            r.title == self.title,
            r.note_inner == self.note_inner,
            r.prev == self.prev,
            r.metadata == self.metadata,
    {
        let mut note = self;
        note.parent = Some(parent);
        note
    }

    /// The revision an update writes from the edited revision: it is named
    /// `new_revision`, its metadata is that of an update at `now`, and a note
    /// that is brought back from deletion loses its parent and its previous
    /// note, which may have been linked to other notes meanwhile.
    pub fn prepared(self, new_revision: u128, now: i128, is_resurrecting: bool) -> (r: Self)
        requires
            self.metadata.schema_version <= NOTE_METADATA_CURRENT_SCHEMA_VERSION,
        ensures
            r.id == self.id,
            r.revision == new_revision,
            r.title == self.title,
            r.note_inner == self.note_inner,
            r.metadata@ == updated(self.metadata@, now),
            r.parent == (if is_resurrecting {
                None
            } else {
                self.parent
            }),
            r.prev == (if is_resurrecting {
                None
            } else {
                self.prev
            }),
    {
        let metadata = self.metadata.on_update_note_at(now);
        let mut note = self;
        note.revision = new_revision;
        note.metadata = metadata;
        if is_resurrecting {
            note.parent = None;
            note.prev = None;
        }
        note
    }
}

/// The locator of the revision a row writes.
pub fn written_location(row: &PostgreSQLNoteRow) -> (r: NoteLocator)
    ensures
        r@.id == uuid_hyphenated(row.id),
        r@.revision == Some(uuid_hyphenated(row.revision)),
{
    NoteLocator::Specific(NoteID::from_uuid(row.id), Revision::from_uuid(row.revision))
}

/// Whether the revision at a locator, with UUIDs `id` and `revision`, may be
/// the source of an update: a deleted note may be brought back from any of
/// its revisions; otherwise only the current revision may be updated.
pub fn update_source(id: u128, revision: Option<u128>, is_resurrecting: bool, is_current: bool) -> (r: Result<(), NoteStoreError>)
    requires
        is_resurrecting || is_current || revision is Some,
    ensures
        r is Ok <==> is_resurrecting || is_current,
        r matches Err(e) ==> e@ == StoreErrorView::UpdateOldRevision(
            uuid_hyphenated(id),
            uuid_hyphenated(revision->0),
        ),
{
    if is_resurrecting || is_current {
        Ok(())
    } else {
        match revision {
            Some(rev) => Err(NoteStoreError::UpdateOldRevision(NoteID::from_uuid(id), Revision::from_uuid(rev))),
            None => Ok(()),
        }
    }
}

/// Whether the revision at `loc` may be deleted: only the current revision of
/// a note may be.
pub fn deletion_source(loc: &NoteLocator, is_current: bool) -> (r: Result<(), NoteStoreError>)
    requires
        is_current || loc@.revision is Some,
    ensures
        r is Ok <==> is_current,
        r matches Err(e) ==> e@ == StoreErrorView::DeleteOldRevision(loc@.id, loc@.revision->0),
{
    if is_current {
        Ok(())
    } else {
        match loc {
            NoteLocator::Specific(id, rev) => Err(NoteStoreError::DeleteOldRevision(id.clone(), rev.clone())),
            NoteLocator::Current(_) => Ok(()),
        }
    }
}

/// What deleting the note `note`, of identifier `id`, asks first: a note with
/// branches or with notes that refer to it stays; a note between two others
/// in a sequence hands its previous note to its next one, and the result
/// names the two (next, then previous).
pub fn deletion_relink<T: NoteType>(id: &NoteID, note: &PostgreSQLNote<T>) -> (r: Result<
    Option<(NoteID, NoteID)>,
    NoteStoreError,
>)
    ensures
        note@.branches.len() > 0 ==> (r matches Err(e) && e@ == StoreErrorView::HasBranches(id@)),
        note@.branches.len() == 0 && note@.references.len() > 0 ==> (r matches Err(e) && e@
            == StoreErrorView::HasReferences(id@)),
        note@.branches.len() == 0 && note@.references.len() == 0 ==> (r matches Ok(o) && match o {
            Some((n, p)) => note@.next == Some(n@) && note@.prev == Some(p@),
            None => note@.next is None || note@.prev is None,
        }),
{
    let branches = note.get_branches();
    if branches.len() > 0 {
        return Err(NoteStoreError::HasBranches(id.clone()));
    }
    let references = note.get_references();
    if references.len() > 0 {
        return Err(NoteStoreError::HasReferences(id.clone()));
    }
    match (note.get_next(), note.get_prev()) {
        (Some(n), Some(p)) => Ok(Some((n, p))),
        _ => Ok(None),
    }
}

/// The current revision of the note of UUID `id`, given the current revision
/// the store holds for it, if any, and whether the note was ever created.
pub fn current_revision_outcome(id: u128, current: Option<u128>, ever_existed: bool) -> (r: Result<Revision, NoteStoreError>)
    ensures
        current matches Some(c) ==> (r matches Ok(rev) && rev@ == uuid_hyphenated(c)),
        current is None && ever_existed ==> (r matches Err(e) && e@ == StoreErrorView::NoteDeleted(
            uuid_hyphenated(id),
        )),
        current is None && !ever_existed ==> (r matches Err(e) && e@ == StoreErrorView::NoteNotExist(
            uuid_hyphenated(id),
        )),
{
    match current {
        Some(c) => Ok(Revision::from_uuid(c)),
        None => {
            if ever_existed {
                Err(NoteStoreError::NoteDeleted(NoteID::from_uuid(id)))
            } else {
                Err(NoteStoreError::NoteNotExist(NoteID::from_uuid(id)))
            }
        },
    }
}

/// Whether the note of UUID `id` is deleted, given whether the store found
/// the note and, if it did, whether the note has a current revision.
pub fn deleted_outcome(id: u128, found: Option<bool>) -> (r: Result<bool, NoteStoreError>)
    ensures
        found matches Some(has_current) ==> (r matches Ok(d) && d == !has_current),
        found is None ==> (r matches Err(e) && e@ == StoreErrorView::NoteNotExist(uuid_hyphenated(id))),
{
    match found {
        Some(has_current) => Ok(!has_current),
        None => Err(NoteStoreError::NoteNotExist(NoteID::from_uuid(id))),
    }
}

/// Whether `next` may be appended to `last`, the current revision of the
/// note `last_id`: only to the last note of a sequence.
pub fn append_source<T: NoteType>(last_id: &NoteID, last: &PostgreSQLNote<T>) -> (r: Result<(), NoteStoreError>)
    ensures
        r is Ok <==> last@.next is None,
        r matches Err(e) ==> e@ == StoreErrorView::ExistingNext(last_id@, last@.next->0),
{
    match last.get_next() {
        Some(n) => Err(NoteStoreError::ExistingNext(last_id.clone(), n)),
        None => Ok(()),
    }
}

/// What a read gives back of a write: the row that writes a revision holds
/// the revision's note, name, title and links, and its metadata reads back as
/// the revision's metadata, where the tags are distinct and the schema
/// version fits the column.
pub proof fn law_row_round_trip<T: NoteType>(row: PostgreSQLNoteRow, n: PostgreSQLNoteEditable<T>)
    requires
        row_holds(row, n),
        texts_of(n.metadata.tags@).no_duplicates(),
        n.metadata.schema_version <= i64::MAX,
    ensures
        row.id == n.id,
        row.revision == n.revision,
        row.title@ == n.title@,
        row.parent == n.parent,
        row.prev == n.prev,
        row_metadata(row) == n.metadata@,
{
    lemma_dedup_of_distinct(texts_of(n.metadata.tags@));
}

} // verus!
