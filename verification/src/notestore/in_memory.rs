//! In-memory storage of notes.
//!
//! Every note keeps all of its revisions; deleting a note only removes its
//! current revision. Note `k` (in creation order) is called `note-k` and the
//! `j`-th revision of a note is called `revision-j`.
use crate::errors::{NoteStoreError, StoreErrorView};
use crate::clock::now_timestamp;
use crate::note::{Note, NoteID, NoteLocator, Revision};
use crate::notemetadata::{
    applied, fresh_metadata, updated, EditableView, MetadataView, NoteMetadata,
    NoteMetadataEditable, NOTE_METADATA_CURRENT_SCHEMA_VERSION,
};
use crate::notetype::{contains_id, copy_ids, ids_of, insert_id, MarkdownNote, NoteType};
use crate::order::{is_key_order, key_order, positions};
use crate::notestore::search::{SearchRequest, SearchView};
use crate::notemetadata::{contains_text, texts_of};
use crate::text::{
    chars_of, contains_chars, decimal, is_infix, lemma_decimal_injective, lowercase, push_decimal,
    to_lowercase,
};
use vstd::prelude::*;

verus! {

/// A stored revision of a note.
#[derive(Debug)]
pub struct InMemoryNoteStored<T> {
    pub title: String,
    pub note_inner: T,
    pub id: NoteID,
    pub revision: Revision,
    pub branches: Vec<NoteID>,
    pub next: Option<NoteID>,
    pub metadata: NoteMetadata,
}

/// The view of a stored revision.
pub struct StoredView<V> {
    pub title: Seq<char>,
    pub inner: V,
    pub id: Seq<char>,
    pub revision: Seq<char>,
    pub branches: Seq<Seq<char>>,
    pub next: Option<Seq<char>>,
    pub metadata: MetadataView,
}

/// The text of an optional note identifier.
pub open spec fn opt_id(o: Option<NoteID>) -> Option<Seq<char>> {
    match o {
        Some(id) => Some(id@),
        None => None,
    }
}

impl<T: View> View for InMemoryNoteStored<T> {
    type V = StoredView<T::V>;

    open spec fn view(&self) -> StoredView<T::V> {
        StoredView {
            title: self.title@,
            inner: self.note_inner@,
            id: self.id@,
            revision: self.revision@,
            branches: ids_of(self.branches@),
            next: opt_id(self.next),
            metadata: self.metadata@,
        }
    }
}

/// All revisions of one note and which of them is current (none for a deleted note).
#[derive(Debug)]
pub struct NoteRecord<T> {
    pub id: NoteID,
    pub revisions: Vec<InMemoryNoteStored<T>>,
    pub current: Option<usize>,
}

/// The view of a [`NoteRecord`].
pub struct RecordView<V> {
    pub id: Seq<char>,
    pub revisions: Seq<StoredView<V>>,
    pub current: Option<int>,
}

impl<T: View> View for NoteRecord<T> {
    type V = RecordView<T::V>;

    open spec fn view(&self) -> RecordView<T::V> {
        RecordView {
            id: self.id@,
            revisions: self.revisions@.map_values(|s: InMemoryNoteStored<T>| s@),
            current: match self.current {
                Some(c) => Some(c as int),
                None => None,
            },
        }
    }
}

/// The name of the `k`-th note created in a store.
pub open spec fn note_id_text(k: nat) -> Seq<char> {
    "note-"@ + decimal(k)
}

/// The name of the `j`-th revision of a note.
pub open spec fn revision_text(j: nat) -> Seq<char> {
    "revision-"@ + decimal(j)
}

/// The name of the current revision, where a locator asks for it but the note has none.
pub open spec fn current_word() -> Seq<char> {
    "current"@
}

/// Distinct notes have distinct names.
pub proof fn lemma_note_id_injective(a: nat, b: nat)
    requires
        note_id_text(a) == note_id_text(b),
    ensures
        a == b,
{
    let p = "note-"@;
    assert(note_id_text(a).skip(p.len() as int) =~= decimal(a));
    assert(note_id_text(b).skip(p.len() as int) =~= decimal(b));
    lemma_decimal_injective(a, b);
}

/// Distinct revisions have distinct names.
pub proof fn lemma_revision_injective(a: nat, b: nat)
    requires
        revision_text(a) == revision_text(b),
    ensures
        a == b,
{
    let p = "revision-"@;
    assert(revision_text(a).skip(p.len() as int) =~= decimal(a));
    assert(revision_text(b).skip(p.len() as int) =~= decimal(b));
    lemma_decimal_injective(a, b);
}

/// The well-formedness of one note's record, the note being the `k`-th created.
pub open spec fn record_wf<V>(r: RecordView<V>, k: nat) -> bool {
    &&& r.id == note_id_text(k)
    &&& r.revisions.len() >= 1
    &&& (forall|j: int|
        0 <= j < r.revisions.len() ==> {
            &&& (#[trigger] r.revisions[j]).id == note_id_text(k)
            &&& r.revisions[j].revision == revision_text(j as nat)
            &&& r.revisions[j].metadata.schema_version <= NOTE_METADATA_CURRENT_SCHEMA_VERSION
            &&& r.revisions[j].metadata.tags.no_duplicates()
            &&& r.revisions[j].branches.no_duplicates()
        })
    &&& match r.current {
        Some(c) => 0 <= c < r.revisions.len(),
        None => true,
    }
}

/// The well-formedness of a store's notes.
pub open spec fn store_wf<V>(s: Seq<RecordView<V>>) -> bool {
    forall|k: int| 0 <= k < s.len() ==> record_wf(#[trigger] s[k], k as nat)
}

/// Whether the store knows the note `id`.
pub open spec fn has_note<V>(s: Seq<RecordView<V>>, id: Seq<char>) -> bool {
    exists|k: int| 0 <= k < s.len() && (#[trigger] s[k]).id == id
}

/// The position of the note `id` in the store.
pub open spec fn note_index<V>(s: Seq<RecordView<V>>, id: Seq<char>) -> int {
    choose|k: int| 0 <= k < s.len() && (#[trigger] s[k]).id == id
}

/// The record of the note `id`.
pub open spec fn record_of<V>(s: Seq<RecordView<V>>, id: Seq<char>) -> RecordView<V> {
    s[note_index(s, id)]
}

/// Whether a record has the revision `rev`.
pub open spec fn has_revision<V>(r: RecordView<V>, rev: Seq<char>) -> bool {
    exists|j: int| 0 <= j < r.revisions.len() && (#[trigger] r.revisions[j]).revision == rev
}

/// The position of the revision `rev` in a record.
pub open spec fn revision_index<V>(r: RecordView<V>, rev: Seq<char>) -> int {
    choose|j: int| 0 <= j < r.revisions.len() && (#[trigger] r.revisions[j]).revision == rev
}

/// Whether a record has a current revision.
pub open spec fn is_live<V>(r: RecordView<V>) -> bool {
    r.current is Some
}

/// The current revision of a live record.
pub open spec fn current_of<V>(r: RecordView<V>) -> StoredView<V> {
    r.revisions[r.current->0]
}

/// In a well-formed store, the position of a note's name is that note's position.
pub proof fn lemma_note_index<V>(s: Seq<RecordView<V>>, k: int)
    requires
        store_wf(s),
        0 <= k < s.len(),
    ensures
        has_note(s, s[k].id),
        note_index(s, s[k].id) == k,
{
    assert(record_wf(s[k], k as nat));
    let i = note_index(s, s[k].id);
    assert(record_wf(s[i], i as nat));
    lemma_note_id_injective(i as nat, k as nat);
}

/// In a well-formed record, the position of a revision's name is that revision's position.
pub proof fn lemma_revision_index<V>(r: RecordView<V>, k: nat, j: int)
    requires
        record_wf(r, k),
        0 <= j < r.revisions.len(),
    ensures
        has_revision(r, r.revisions[j].revision),
        revision_index(r, r.revisions[j].revision) == j,
{
    let i = revision_index(r, r.revisions[j].revision);
    assert(r.revisions[i].revision == revision_text(i as nat));
    assert(r.revisions[j].revision == revision_text(j as nat));
    lemma_revision_injective(i as nat, j as nat);
}

/// The view of an outcome whose value is of a viewable type.
pub open spec fn outcome<A: View>(r: Result<A, NoteStoreError>) -> Result<A::V, StoreErrorView> {
    match r {
        Ok(a) => Ok(a@),
        Err(e) => Err(e@),
    }
}

/// The view of an outcome whose value is a plain value.
pub open spec fn plain_outcome<A>(r: Result<A, NoteStoreError>) -> Result<A, StoreErrorView> {
    match r {
        Ok(a) => Ok(a),
        Err(e) => Err(e@),
    }
}

/// Whether the note a locator names is deleted.
pub open spec fn deleted_outcome<V>(s: Seq<RecordView<V>>, id: Seq<char>) -> Result<bool, StoreErrorView> {
    if !has_note(s, id) {
        Err(StoreErrorView::NoteNotExist(id))
    } else {
        Ok(!is_live(record_of(s, id)))
    }
}

/// The name of the current revision of a note.
pub open spec fn current_revision_outcome<V>(s: Seq<RecordView<V>>, id: Seq<char>) -> Result<
    Option<Seq<char>>,
    StoreErrorView,
> {
    if !has_note(s, id) {
        Err(StoreErrorView::NoteNotExist(id))
    } else if is_live(record_of(s, id)) {
        Ok(Some(current_of(record_of(s, id)).revision))
    } else {
        Ok(None)
    }
}

/// Whether a locator points at the current revision of its note.
pub open spec fn current_outcome<V>(s: Seq<RecordView<V>>, id: Seq<char>, rev: Option<Seq<char>>) -> Result<bool, StoreErrorView> {
    if !has_note(s, id) {
        Err(StoreErrorView::NoteNotExist(id))
    } else {
        match rev {
            Some(r) => Ok(is_live(record_of(s, id)) && current_of(record_of(s, id)).revision == r),
            None => Ok(is_live(record_of(s, id))),
        }
    }
}

/// The stored revision `rev` of note `id`.
pub open spec fn by_revision_outcome<V>(s: Seq<RecordView<V>>, id: Seq<char>, rev: Seq<char>) -> Result<
    StoredView<V>,
    StoreErrorView,
> {
    if !has_note(s, id) {
        Err(StoreErrorView::NoteNotExist(id))
    } else if !has_revision(record_of(s, id), rev) {
        Err(StoreErrorView::RevisionNotExist(id, rev))
    } else {
        Ok(record_of(s, id).revisions[revision_index(record_of(s, id), rev)])
    }
}

/// The stored revision a locator points at.
pub open spec fn stored_outcome<V>(s: Seq<RecordView<V>>, id: Seq<char>, rev: Option<Seq<char>>) -> Result<
    StoredView<V>,
    StoreErrorView,
> {
    match rev {
        Some(r) => by_revision_outcome(s, id, r),
        None => if !has_note(s, id) {
            Err(StoreErrorView::NoteNotExist(id))
        } else if !is_live(record_of(s, id)) {
            Err(StoreErrorView::RevisionNotExist(id, current_word()))
        } else {
            Ok(current_of(record_of(s, id)))
        },
    }
}

impl<T: NoteType> InMemoryNoteStored<T> {
    /// A copy of the stored revision.
    pub fn duplicate(&self) -> (r: Self)
        ensures
            r@ == self@,
    {
        InMemoryNoteStored {
            title: self.title.clone(),
            note_inner: self.note_inner.duplicate(),
            id: self.id.clone(),
            revision: self.revision.clone(),
            branches: copy_ids(&self.branches),
            next: match &self.next {
                Some(n) => Some(n.clone()),
                None => None,
            },
            metadata: self.metadata.duplicate(),
        }
    }
}

/// The name of the `k`-th note.
fn note_id_for(k: usize) -> (r: NoteID)
    ensures
        r@ == note_id_text(k as nat),
{
    let mut s = "note-".to_owned();
    push_decimal(&mut s, k as u64);
    NoteID::new(s)
}

/// The name of the `j`-th revision.
fn revision_for(j: usize) -> (r: Revision)
    ensures
        r@ == revision_text(j as nat),
{
    let mut s = "revision-".to_owned();
    push_decimal(&mut s, j as u64);
    Revision::new(s)
}

/// A change to the content of a stored revision.
pub enum StoredEdit<T> {
    /// Replace the title and the inner content where given, and edit the metadata.
    Content { title: Option<String>, note_inner: Option<T>, metadata: NoteMetadataEditable },
    /// Set the next note of a sequence.
    SetNext(Option<NoteID>),
    /// Add a branch.
    AddBranch(NoteID),
    /// Remove a branch, and add the note that followed it, if any.
    Rebranch(NoteID, Option<NoteID>),
}

/// The view of a [`StoredEdit`].
pub enum EditView<V> {
    Content { title: Option<Seq<char>>, inner: Option<V>, metadata: EditableView },
    SetNext(Option<Seq<char>>),
    AddBranch(Seq<char>),
    Rebranch(Seq<char>, Option<Seq<char>>),
}

impl<T: View> View for StoredEdit<T> {
    type V = EditView<T::V>;

    open spec fn view(&self) -> EditView<T::V> {
        match self {
            StoredEdit::Content { title, note_inner, metadata } => EditView::Content {
                title: match title {
                    Some(t) => Some(t@),
                    None => None,
                },
                inner: match note_inner {
                    Some(n) => Some(n@),
                    None => None,
                },
                metadata: metadata@,
            },
            StoredEdit::SetNext(n) => EditView::SetNext(opt_id(*n)),
            StoredEdit::AddBranch(c) => EditView::AddBranch(c@),
            StoredEdit::Rebranch(c, n) => EditView::Rebranch(c@, opt_id(*n)),
        }
    }
}

/// `s` with `x` added unless it holds it already.
pub open spec fn set_insert(s: Seq<Seq<char>>, x: Seq<char>) -> Seq<Seq<char>> {
    if s.contains(x) {
        s
    } else {
        s.push(x)
    }
}

/// Whether an identifier differs from `x`.
pub open spec fn other_than(x: Seq<char>) -> spec_fn(Seq<char>) -> bool {
    |y: Seq<char>| y != x
}

/// The branches `b` without `x`, with `n` added, if given, unless it is there.
pub open spec fn rebranched(b: Seq<Seq<char>>, x: Seq<char>, n: Option<Seq<char>>) -> Seq<Seq<char>> {
    let kept = b.filter(other_than(x));
    match n {
        Some(m) => set_insert(kept, m),
        None => kept,
    }
}

/// The edit that replaces the title and the content where given and edits the metadata.
pub open spec fn content_edit<T: View>(title: Option<String>, note_inner: Option<T>, md: NoteMetadataEditable) -> EditView<T::V> {
    EditView::Content {
        title: match title {
            Some(t) => Some(t@),
            None => None,
        },
        inner: match note_inner {
            Some(n) => Some(n@),
            None => None,
        },
        metadata: md@,
    }
}

/// A stored revision with an edit applied.
pub open spec fn edited<V>(b: StoredView<V>, e: EditView<V>) -> StoredView<V> {
    match e {
        EditView::Content { title, inner, metadata } => StoredView {
            title: match title {
                Some(t) => t,
                None => b.title,
            },
            inner: match inner {
                Some(n) => n,
                None => b.inner,
            },
            metadata: applied(b.metadata, metadata),
            ..b
        },
        EditView::SetNext(n) => StoredView { next: n, ..b },
        EditView::AddBranch(c) => StoredView { branches: set_insert(b.branches, c), ..b },
        EditView::Rebranch(c, n) => StoredView { branches: rebranched(b.branches, c, n), ..b },
    }
}

/// The revision that an update makes from `b` with edit `e`: the `j`-th
/// revision of its note, written at `now`. A resurrected note stands alone:
/// it has no branches and no next note.
pub open spec fn new_revision<V>(b: StoredView<V>, e: EditView<V>, j: nat, now: i128, resurrect: bool) -> StoredView<V> {
    let x = edited(b, e);
    StoredView {
        revision: revision_text(j),
        metadata: updated(x.metadata, now),
        branches: if resurrect {
            Seq::empty()
        } else {
            x.branches
        },
        next: if resurrect {
            None
        } else {
            x.next
        },
        ..x
    }
}

/// The error an update through a locator meets, if any.
pub open spec fn update_error<V>(s: Seq<RecordView<V>>, id: Seq<char>, rev: Option<Seq<char>>) -> Option<StoreErrorView> {
    if !has_note(s, id) {
        Some(StoreErrorView::NoteNotExist(id))
    } else if is_live(record_of(s, id)) && current_outcome(s, id, rev) == Ok::<bool, StoreErrorView>(false) {
        Some(StoreErrorView::UpdateOldRevision(id, rev->0))
    } else {
        match stored_outcome(s, id, rev) {
            Err(e) => Some(e),
            Ok(_) => None,
        }
    }
}

/// The notes after a successful update through a locator.
pub open spec fn updated_store<V>(s: Seq<RecordView<V>>, id: Seq<char>, rev: Option<Seq<char>>, e: EditView<V>, now: i128) -> Seq<RecordView<V>> {
    let k = note_index(s, id);
    let r = s[k];
    let b = stored_outcome(s, id, rev)->Ok_0;
    s.update(
        k,
        RecordView {
            id: r.id,
            revisions: r.revisions.push(new_revision(b, e, r.revisions.len(), now, !is_live(r))),
            current: Some(r.revisions.len() as int),
        },
    )
}

/// The first revision of a new note.
pub open spec fn first_revision<V>(title: Seq<char>, inner: V, md: EditableView, k: nat, now: i128) -> StoredView<V> {
    StoredView {
        title,
        inner,
        id: note_id_text(k),
        revision: revision_text(0),
        branches: Seq::empty(),
        next: None,
        metadata: applied(fresh_metadata(now), md),
    }
}

/// The notes after a note is created.
pub open spec fn with_new_note<V>(s: Seq<RecordView<V>>, title: Seq<char>, inner: V, md: EditableView, now: i128) -> Seq<RecordView<V>> {
    s.push(
        RecordView {
            id: note_id_text(s.len()),
            revisions: seq![first_revision(title, inner, md, s.len(), now)],
            current: Some(0),
        },
    )
}

/// Adding an absent element keeps a sequence free of repetitions.
pub proof fn lemma_set_insert_distinct(s: Seq<Seq<char>>, x: Seq<char>)
    requires
        s.no_duplicates(),
    ensures
        set_insert(s, x).no_duplicates(),
        forall|y: Seq<char>| #[trigger] set_insert(s, x).contains(y) <==> (s.contains(y) || y == x),
{
    if !s.contains(x) {
        assert forall|a: int, b: int|
            0 <= a < b < s.push(x).len() implies s.push(x)[a] != s.push(x)[b] by {
            if b == s.len() {
                assert(s.contains(s[a]));
            }
        }
        assert forall|y: Seq<char>| #[trigger] s.push(x).contains(y) <==> (s.contains(y) || y == x) by {
            if s.contains(y) {
                let i = choose|i: int| 0 <= i < s.len() && s[i] == y;
                assert(s.push(x)[i] == y);
            }
            if y == x {
                assert(s.push(x)[s.len() as int] == y);
            }
            if s.push(x).contains(y) {
                let i = choose|i: int| 0 <= i < s.push(x).len() && s.push(x)[i] == y;
                if i < s.len() {
                    assert(s[i] == y);
                }
            }
        }
    }
}

/// `v` without the identifier `x`.
fn without_id(v: &Vec<NoteID>, x: &NoteID) -> (r: Vec<NoteID>)
    ensures
        ids_of(r@) == ids_of(v@).filter(other_than(x@)),
{
    let ghost f = other_than(x@);
    let mut r: Vec<NoteID> = Vec::new();
    let mut i: usize = 0;
    while i < v.len()
        invariant
            i <= v.len(),
            f == other_than(x@),
            ids_of(r@) == ids_of(v@).take(i as int).filter(f),
        decreases v.len() - i,
    {
        proof {
            reveal_with_fuel(Seq::<_>::filter, 1);
            assert(ids_of(v@).take(i + 1).drop_last() =~= ids_of(v@).take(i as int));
            assert(ids_of(v@).take(i + 1).last() == v@[i as int]@);
        }
        if !v[i].same(x) {
            let c = v[i].clone();
            proof {
                assert(ids_of(r@.push(c)) =~= ids_of(r@).push(c@));
            }
            r.push(c);
        }
        i += 1;
    }
    assert(ids_of(v@).take(v.len() as int) =~= ids_of(v@));
    r
}

/// Removing an element and adding another keeps branches free of repetitions.
pub proof fn lemma_rebranched_distinct(b: Seq<Seq<char>>, x: Seq<char>, n: Option<Seq<char>>)
    requires
        b.no_duplicates(),
    ensures
        rebranched(b, x, n).no_duplicates(),
        forall|y: Seq<char>| #[trigger] rebranched(b, x, n).contains(y) <==> ((b.contains(y) && y != x) || n == Some(y)),
{
    let f = other_than(x);
    let kept = b.filter(f);
    lemma_filter_distinct(b, f);
    assert forall|y: Seq<char>| #[trigger] kept.contains(y) <==> (b.contains(y) && y != x) by {
        if b.contains(y) && y != x {
            let i = choose|i: int| 0 <= i < b.len() && b[i] == y;
            b.lemma_filter_contains(f, i);
        }
        if kept.contains(y) {
            b.lemma_filter_contains_rev(f, y);
            let i = choose|i: int| 0 <= i < kept.len() && kept[i] == y;
            b.lemma_filter_pred(f, i);
        }
    }
    match n {
        Some(m) => lemma_set_insert_distinct(kept, m),
        None => {},
    }
}

/// Filtering keeps a sequence free of repetitions.
pub proof fn lemma_filter_distinct<A>(s: Seq<A>, f: spec_fn(A) -> bool)
    requires
        s.no_duplicates(),
    ensures
        s.filter(f).no_duplicates(),
    decreases s.len(),
{
    reveal_with_fuel(Seq::<_>::filter, 1);
    if s.len() > 0 {
        let p = s.drop_last();
        assert(p.no_duplicates());
        lemma_filter_distinct(p, f);
        if f(s.last()) {
            let fp = p.filter(f);
            assert forall|a: int, b: int| 0 <= a < b < fp.push(s.last()).len() implies fp.push(s.last())[a] != fp.push(s.last())[b] by {
                if b == fp.len() {
                    assert(fp.contains(fp[a]));
                    p.lemma_filter_contains_rev(f, fp[a]);
                    assert(p.contains(fp[a]));
                    let i = choose|i: int| 0 <= i < p.len() && p[i] == fp[a];
                    assert(s[i] != s[s.len() - 1]);
                }
            }
        }
    }
}

/// Applies an edit to a stored revision.
fn apply_edit<T: NoteType>(note: InMemoryNoteStored<T>, edit: StoredEdit<T>) -> (r: InMemoryNoteStored<T>)
    ensures
        r@ == edited(note@, edit@),
{
    let mut note = note;
    match edit {
        StoredEdit::Content { title, note_inner, metadata } => {
            if let Some(t) = title {
                note.title = t;
            }
            if let Some(n) = note_inner {
                note.note_inner = n;
            }
            note.metadata = note.metadata.apply_editable(metadata);
        },
        StoredEdit::SetNext(n) => {
            note.next = n;
        },
        StoredEdit::AddBranch(c) => {
            insert_id(&mut note.branches, c);
        },
        StoredEdit::Rebranch(c, n) => {
            let mut kept = without_id(&note.branches, &c);
            if let Some(m) = n {
                insert_id(&mut kept, m);
            }
            note.branches = kept;
        },
    }
    note
}

/// Whether a note is live and its current content refers to `id`.
pub open spec fn refers_to<T: NoteType>(r: RecordView<T::V>, id: Seq<char>) -> bool {
    is_live(r) && T::referent_ids(current_of(r).inner).contains(id)
}

/// The notes whose current content refers to `id`, in creation order.
pub open spec fn referrers<T: NoteType>(s: Seq<RecordView<T::V>>, id: Seq<char>) -> Seq<Seq<char>> {
    s.filter(|r: RecordView<T::V>| refers_to::<T>(r, id)).map_values(|r: RecordView<T::V>| r.id)
}

/// Whether a note is live and has `id` among the branches of its current revision.
pub open spec fn has_branch<V>(r: RecordView<V>, id: Seq<char>) -> bool {
    is_live(r) && current_of(r).branches.contains(id)
}

/// Whether a note is live and `id` follows it in a sequence.
pub open spec fn is_followed_by<V>(r: RecordView<V>, id: Seq<char>) -> bool {
    is_live(r) && current_of(r).next == Some(id)
}

/// The first element of a sequence, if any.
pub open spec fn first_id(s: Seq<Seq<char>>) -> Option<Seq<char>> {
    if s.len() > 0 {
        Some(s[0])
    } else {
        None
    }
}

/// The parent of `id`: the first live note (in creation order) that has it as a branch.
pub open spec fn parent_of<V>(s: Seq<RecordView<V>>, id: Seq<char>) -> Option<Seq<char>> {
    first_id(s.filter(|r: RecordView<V>| has_branch(r, id)).map_values(|r: RecordView<V>| r.id))
}

/// The note before `id` in a sequence: the first live note (in creation
/// order) that `id` follows.
pub open spec fn prev_of<V>(s: Seq<RecordView<V>>, id: Seq<char>) -> Option<Seq<char>> {
    first_id(s.filter(|r: RecordView<V>| is_followed_by(r, id)).map_values(|r: RecordView<V>| r.id))
}

/// The current revisions of the live notes, in creation order.
pub open spec fn current_notes<V>(s: Seq<RecordView<V>>) -> Seq<StoredView<V>> {
    s.filter(|r: RecordView<V>| is_live(r)).map_values(|r: RecordView<V>| current_of(r))
}

/// The referents of every live note can be read.
pub open spec fn all_readable<T: NoteType>(s: Seq<RecordView<T::V>>) -> bool {
    forall|k: int| 0 <= k < s.len() && is_live(#[trigger] s[k]) ==> T::readable(current_of(s[k]).inner)
}

/// Filtering a prefix one element longer adds that element if it passes.
pub proof fn lemma_filter_step<A, B>(s: Seq<A>, f: spec_fn(A) -> bool, g: spec_fn(A) -> B, i: int)
    requires
        0 <= i < s.len(),
    ensures
        s.take(i + 1).filter(f) == (if f(s[i]) {
            s.take(i).filter(f).push(s[i])
        } else {
            s.take(i).filter(f)
        }),
        s.take(i + 1).filter(f).map_values(g) == (if f(s[i]) {
            s.take(i).filter(f).map_values(g).push(g(s[i]))
        } else {
            s.take(i).filter(f).map_values(g)
        }),
{
    reveal_with_fuel(Seq::<_>::filter, 1);
    assert(s.take(i + 1).drop_last() =~= s.take(i));
    if f(s[i]) {
        assert(s.take(i).filter(f).push(s[i]).map_values(g) =~= s.take(i).filter(f).map_values(g).push(g(s[i])));
    }
}

/// When the first element to pass a filter is at `i`, the filtered sequence starts with it.
pub proof fn lemma_filter_first<A, B>(s: Seq<A>, f: spec_fn(A) -> bool, g: spec_fn(A) -> B, i: int)
    requires
        0 <= i < s.len(),
        s.take(i).filter(f).len() == 0,
        f(s[i]),
    ensures
        s.filter(f).map_values(g).len() > 0,
        s.filter(f).map_values(g)[0] == g(s[i]),
{
    lemma_filter_step(s, f, g, i);
    assert(s =~= s.take(i + 1) + s.skip(i + 1));
    Seq::filter_distributes_over_add(s.take(i + 1), s.skip(i + 1), f);
    assert(s.take(i + 1).filter(f) =~= seq![s[i]]);
}

/// A note with its relationships computed from the store.
#[derive(Debug)]
pub struct InMemoryNoteComputed<T> {
    pub title: String,
    pub note_inner: T,
    pub id: NoteID,
    pub revision: Revision,
    pub is_current: bool,
    pub parent: Option<NoteID>,
    pub branches: Vec<NoteID>,
    pub prev: Option<NoteID>,
    pub next: Option<NoteID>,
    pub referents: Vec<NoteID>,
    pub references: Vec<NoteID>,
    pub metadata: NoteMetadata,
}

/// The view of a computed note.
pub struct ComputedView<V> {
    pub title: Seq<char>,
    pub inner: V,
    pub id: Seq<char>,
    pub revision: Seq<char>,
    pub is_current: bool,
    pub parent: Option<Seq<char>>,
    pub branches: Seq<Seq<char>>,
    pub prev: Option<Seq<char>>,
    pub next: Option<Seq<char>>,
    pub referents: Set<Seq<char>>,
    pub references: Seq<Seq<char>>,
    pub metadata: MetadataView,
}

impl<T: View> View for InMemoryNoteComputed<T> {
    type V = ComputedView<T::V>;

    open spec fn view(&self) -> ComputedView<T::V> {
        ComputedView {
            title: self.title@,
            inner: self.note_inner@,
            id: self.id@,
            revision: self.revision@,
            is_current: self.is_current,
            parent: opt_id(self.parent),
            branches: ids_of(self.branches@),
            prev: opt_id(self.prev),
            next: opt_id(self.next),
            referents: ids_of(self.referents@).to_set(),
            references: ids_of(self.references@),
            metadata: self.metadata@,
        }
    }
}

fn copy_opt_id(o: &Option<NoteID>) -> (r: Option<NoteID>)
    ensures
        opt_id(r) == opt_id(*o),
{
    match o {
        Some(n) => Some(n.clone()),
        None => None,
    }
}

impl<T: NoteType> InMemoryNoteComputed<T> {
    /// A copy of the note.
    pub fn duplicate(&self) -> (r: Self)
        ensures
            r@ == self@,
    {
        InMemoryNoteComputed {
            title: self.title.clone(),
            note_inner: self.note_inner.duplicate(),
            id: self.id.clone(),
            revision: self.revision.clone(),
            is_current: self.is_current,
            parent: copy_opt_id(&self.parent),
            branches: copy_ids(&self.branches),
            prev: copy_opt_id(&self.prev),
            next: copy_opt_id(&self.next),
            referents: copy_ids(&self.referents),
            references: copy_ids(&self.references),
            metadata: self.metadata.duplicate(),
        }
    }
}

impl<T: NoteType> Note<T> for InMemoryNoteComputed<T> {
    fn get_title(&self) -> (r: String)
        ensures
            r@ == self@.title,
    {
        self.title.clone()
    }

    fn get_note_inner(&self) -> (r: T)
        ensures
            r@ == self@.inner,
    {
        self.note_inner.duplicate()
    }

    fn get_id(&self) -> (r: NoteID)
        ensures
            r@ == self@.id,
    {
        self.id.clone()
    }

    fn get_revision(&self) -> (r: Revision)
        ensures
            r@ == self@.revision,
    {
        self.revision.clone()
    }

    fn get_parent(&self) -> (r: Option<NoteID>)
        ensures
            opt_id(r) == self@.parent,
    {
        copy_opt_id(&self.parent)
    }

    fn get_branches(&self) -> (r: Vec<NoteID>)
        ensures
            ids_of(r@) == self@.branches,
    {
        copy_ids(&self.branches)
    }

    fn get_prev(&self) -> (r: Option<NoteID>)
        ensures
            opt_id(r) == self@.prev,
    {
        copy_opt_id(&self.prev)
    }

    fn get_next(&self) -> (r: Option<NoteID>)
        ensures
            opt_id(r) == self@.next,
    {
        copy_opt_id(&self.next)
    }

    fn get_references(&self) -> (r: Vec<NoteID>)
        ensures
            ids_of(r@) == self@.references,
    {
        copy_ids(&self.references)
    }

    fn get_referents(&self) -> (r: Vec<NoteID>)
        ensures
            ids_of(r@).to_set() == self@.referents,
    {
        copy_ids(&self.referents)
    }

    fn get_metadata(&self) -> (r: NoteMetadata)
        ensures
            r@ == self@.metadata,
    {
        self.metadata.duplicate()
    }

    fn is_current(&self) -> (r: bool)
        ensures
            r == self@.is_current,
    {
        self.is_current
    }
}

/// The note a stored revision is, with its relationships in the store.
pub open spec fn computed_of<T: NoteType>(s: Seq<RecordView<T::V>>, st: StoredView<T::V>) -> ComputedView<T::V> {
    ComputedView {
        title: st.title,
        inner: st.inner,
        id: st.id,
        revision: st.revision,
        is_current: current_revision_outcome(s, st.id) == Ok::<Option<Seq<char>>, StoreErrorView>(Some(st.revision)),
        parent: parent_of(s, st.id),
        branches: st.branches,
        prev: prev_of(s, st.id),
        next: st.next,
        referents: T::referent_ids(st.inner),
        references: referrers::<T>(s, st.id),
        metadata: st.metadata,
    }
}

/// The outcome of computing a stored revision; the message of a parse error is not described.
pub open spec fn compute_outcome<T: NoteType>(s: Seq<RecordView<T::V>>, st: StoredView<T::V>) -> Result<ComputedView<T::V>, StoreErrorView> {
    if !T::readable(st.inner) {
        Err(StoreErrorView::ParseError(Seq::empty()))
    } else if !has_note(s, st.id) {
        Err(StoreErrorView::NoteNotExist(st.id))
    } else {
        Ok(computed_of::<T>(s, st))
    }
}

/// An outcome with the message of a parse error left out.
pub open spec fn erased<A>(r: Result<A, StoreErrorView>) -> Result<A, StoreErrorView> {
    match r {
        Err(StoreErrorView::ParseError(_)) => Err(StoreErrorView::ParseError(Seq::empty())),
        _ => r,
    }
}

/// The note a locator points at.
pub open spec fn note_outcome<T: NoteType>(s: Seq<RecordView<T::V>>, id: Seq<char>, rev: Option<Seq<char>>) -> Result<ComputedView<T::V>, StoreErrorView> {
    match stored_outcome(s, id, rev) {
        Err(e) => Err(e),
        Ok(st) => compute_outcome::<T>(s, st),
    }
}

/// The notes after the note `id` loses its current revision.
pub open spec fn without_current<V>(s: Seq<RecordView<V>>, id: Seq<char>) -> Seq<RecordView<V>> {
    let k = note_index(s, id);
    s.update(k, RecordView { current: None, ..s[k] })
}

/// The notes after the note `id`, followed by `next`, leaves its place at
/// `now`: the note before it is followed by `next` instead, and its parent
/// loses it as a branch and gains `next` as one.
pub open spec fn relinked_store<V>(s: Seq<RecordView<V>>, id: Seq<char>, next: Option<Seq<char>>, now: i128) -> Seq<RecordView<V>> {
    let s1 = match prev_of(s, id) {
        Some(p) => updated_store(s, p, None, EditView::SetNext(next), now),
        None => s,
    };
    match parent_of(s, id) {
        Some(q) => updated_store(s1, q, None, EditView::Rebranch(id, next), now),
        None => s1,
    }
}

/// The outcome of deleting through a locator at `now`: the error, or the notes after.
pub open spec fn delete_outcome<T: NoteType>(s: Seq<RecordView<T::V>>, id: Seq<char>, rev: Option<Seq<char>>, now: i128) -> Result<Seq<RecordView<T::V>>, StoreErrorView> {
    if !has_note(s, id) {
        Err(StoreErrorView::NoteNotExist(id))
    } else if current_outcome(s, id, rev) != Ok::<bool, StoreErrorView>(true) {
        Err(StoreErrorView::DeleteOldRevision(id, rev->0))
    } else {
        let c = current_of(record_of(s, id));
        if c.branches.len() > 0 {
            Err(StoreErrorView::HasBranches(id))
        } else if referrers::<T>(s, id).len() > 0 {
            Err(StoreErrorView::HasReferences(id))
        } else {
            Ok(without_current(relinked_store(s, id, c.next, now), id))
        }
    }
}

/// The outcome of appending a new note after `last` at `now`: the error, or
/// the notes after. The new note is the last one created.
pub open spec fn append_outcome<V>(s: Seq<RecordView<V>>, last: Seq<char>, title: Seq<char>, inner: V, md: EditableView, now: i128) -> Result<Seq<RecordView<V>>, StoreErrorView> {
    match stored_outcome(s, last, None) {
        Err(e) => Err(e),
        Ok(st) => match st.next {
            Some(n) => Err(StoreErrorView::ExistingNext(st.id, n)),
            None => {
                let s1 = with_new_note(s, title, inner, md, now);
                Ok(updated_store(s1, last, None, EditView::SetNext(Some(note_id_text(s.len()))), now))
            },
        },
    }
}

/// The outcome of adding a new note as a branch of `parent` at `now`: the
/// notes after, and the error, if any. The new note is created even when the
/// parent cannot be updated.
pub open spec fn branch_outcome<V>(s: Seq<RecordView<V>>, parent: Seq<char>, title: Seq<char>, inner: V, md: EditableView, now: i128) -> (Seq<RecordView<V>>, Option<StoreErrorView>) {
    let s1 = with_new_note(s, title, inner, md, now);
    match update_error(s1, parent, None) {
        Some(e) => (s1, Some(e)),
        None => (updated_store(s1, parent, None, EditView::AddBranch(note_id_text(s.len())), now), None),
    }
}

/// The times at which revisions were last modified.
pub open spec fn modification_keys<V>(revs: Seq<StoredView<V>>) -> Seq<i128> {
    revs.map_values(|r: StoredView<V>| r.metadata.modified_at)
}

/// The views of computed notes.
pub open spec fn computed_views<T: View>(v: Seq<InMemoryNoteComputed<T>>) -> Seq<ComputedView<T::V>> {
    v.map_values(|n: InMemoryNoteComputed<T>| n@)
}

/// Whether `word` occurs in the title or the text, ignoring case.
pub open spec fn mentions(title: Seq<char>, text: Seq<char>, word: Seq<char>) -> bool {
    is_infix(lowercase(word), lowercase(title)) || is_infix(lowercase(word), lowercase(text))
}

/// Whether a note answers a search request.
pub open spec fn note_matches<T: NoteType>(sr: SearchView, n: ComputedView<T::V>) -> bool {
    let text = T::text_of(n.inner);
    &&& forall|i: int| 0 <= i < sr.lexemes.len() ==> mentions(n.title, text, #[trigger] sr.lexemes[i])
    &&& forall|i: int|
        0 <= i < sr.lexemes_excluded.len() ==> !mentions(n.title, text, #[trigger] sr.lexemes_excluded[i])
    &&& forall|i: int| 0 <= i < sr.tags.len() ==> n.metadata.tags.contains(#[trigger] sr.tags[i])
    &&& forall|i: int|
        0 <= i < sr.tags_excluded.len() ==> !n.metadata.tags.contains(#[trigger] sr.tags_excluded[i])
    &&& (sr.orphan ==> n.prev is None && n.parent is None && n.references.len() == 0)
    &&& (sr.no_tag ==> n.metadata.tags.len() == 0)
}

/// Whether a record is live and its current note, computed in `s`, answers the request.
pub open spec fn record_matches<T: NoteType>(s: Seq<RecordView<T::V>>, sr: SearchView, r: RecordView<T::V>) -> bool {
    is_live(r) && note_matches::<T>(sr, computed_of::<T>(s, current_of(r)))
}

/// The current notes among `part` of the store `s` that answer a request, in creation order.
pub open spec fn found_in<T: NoteType>(s: Seq<RecordView<T::V>>, part: Seq<RecordView<T::V>>, sr: SearchView) -> Seq<ComputedView<T::V>> {
    part.filter(|r: RecordView<T::V>| record_matches::<T>(s, sr, r)).map_values(
        |r: RecordView<T::V>| computed_of::<T>(s, current_of(r)),
    )
}

/// The creation times of notes.
pub open spec fn created_keys<V>(ns: Seq<ComputedView<V>>) -> Seq<i128> {
    ns.map_values(|n: ComputedView<V>| n.metadata.created_at)
}

/// The first `limit` elements, or all where there is no limit.
pub open spec fn limited<A>(ns: Seq<A>, limit: Option<u64>) -> Seq<A> {
    match limit {
        Some(l) => if l < ns.len() {
            ns.take(l as int)
        } else {
            ns
        },
        None => ns,
    }
}

/// Whether `out` is what a search of `s` answers: the current notes that
/// match, in creation order, or, for a request without positive lexemes,
/// newest first (notes created at the same time: the later created first);
/// at most `limit` of them.
pub open spec fn search_result<T: NoteType>(s: Seq<RecordView<T::V>>, sr: SearchView, out: Seq<ComputedView<T::V>>) -> bool {
    let f = found_in::<T>(s, s, sr);
    if sr.lexemes.len() == 0 {
        exists|idx: Seq<int>|
            is_key_order(created_keys(f), idx) && out == limited(
                idx.reverse().map_values(|i: int| f[i]),
                sr.limit,
            )
    } else {
        out == limited(f, sr.limit)
    }
}

/// Whether one of the notes carries the tag `t`.
pub open spec fn tagged<V>(ns: Seq<StoredView<V>>, t: Seq<char>) -> bool {
    exists|i: int| 0 <= i < ns.len() && (#[trigger] ns[i]).metadata.tags.contains(t)
}

/// A live note can be updated through a locator without a revision.
pub proof fn lemma_live_update<V>(s: Seq<RecordView<V>>, id: Seq<char>)
    requires
        store_wf(s),
        has_note(s, id),
        is_live(record_of(s, id)),
    ensures
        update_error(s, id, None) == None::<StoreErrorView>,
        stored_outcome(s, id, None) == Ok::<StoredView<V>, StoreErrorView>(current_of(record_of(s, id))),
{
}

/// Adding a note keeps every note that was there, with its record.
pub proof fn lemma_push_keeps<V>(s: Seq<RecordView<V>>, x: RecordView<V>, id: Seq<char>)
    requires
        store_wf(s.push(x)),
        has_note(s, id),
    ensures
        has_note(s.push(x), id),
        record_of(s.push(x), id) == record_of(s, id),
        note_index(s.push(x), id) == note_index(s, id),
{
    let k = choose|k: int| 0 <= k < s.len() && (#[trigger] s[k]).id == id;
    assert(s.push(x)[k] == s[k]);
    assert(store_wf(s)) by {
        assert forall|i: int| 0 <= i < s.len() implies record_wf(#[trigger] s[i], i as nat) by {
            assert(s.push(x)[i] == s[i]);
        }
    }
    lemma_note_index(s, k);
    lemma_note_index(s.push(x), k);
}

/// A note can lose its current revision and leave the store well formed.
pub proof fn lemma_delete_keeps_wf<V>(s: Seq<RecordView<V>>, k: int)
    requires
        store_wf(s),
        0 <= k < s.len(),
    ensures
        note_index(s, s[k].id) == k,
        store_wf(without_current(s, s[k].id)),
{
    lemma_note_index(s, k);
    let r = s[k];
    assert(record_wf(r, k as nat));
    let t = without_current(s, r.id);
    assert forall|i: int| 0 <= i < t.len() implies record_wf(#[trigger] t[i], i as nat) by {
        if i != k {
            assert(t[i] == s[i]);
        }
    }
}

/// The note before another in a sequence is a live note of the store.
pub proof fn lemma_prev_live<V>(s: Seq<RecordView<V>>, id: Seq<char>)
    requires
        store_wf(s),
        prev_of(s, id) is Some,
    ensures
        has_note(s, prev_of(s, id)->0),
        is_live(record_of(s, prev_of(s, id)->0)),
        current_of(record_of(s, prev_of(s, id)->0)).next == Some(id),
{
    let f = |r: RecordView<V>| is_followed_by(r, id);
    let fs = s.filter(f);
    assert(fs.map_values(|r: RecordView<V>| r.id).len() > 0);
    s.lemma_filter_pred(f, 0);
    assert(fs.contains(fs[0]));
    s.lemma_filter_contains_rev(f, fs[0]);
    let k = choose|k: int| 0 <= k < s.len() && s[k] == fs[0];
    lemma_note_index(s, k);
}

/// The parent of a note is a live note of the store that has it as a branch.
pub proof fn lemma_parent_live<V>(s: Seq<RecordView<V>>, id: Seq<char>)
    requires
        store_wf(s),
        parent_of(s, id) is Some,
    ensures
        has_note(s, parent_of(s, id)->0),
        is_live(record_of(s, parent_of(s, id)->0)),
        current_of(record_of(s, parent_of(s, id)->0)).branches.contains(id),
{
    let f = |r: RecordView<V>| has_branch(r, id);
    let fs = s.filter(f);
    assert(fs.map_values(|r: RecordView<V>| r.id).len() > 0);
    s.lemma_filter_pred(f, 0);
    assert(fs.contains(fs[0]));
    s.lemma_filter_contains_rev(f, fs[0]);
    let k = choose|k: int| 0 <= k < s.len() && s[k] == fs[0];
    lemma_note_index(s, k);
}

/// An update of a live note keeps every live note live, at its place.
pub proof fn lemma_update_keeps_live<V>(s: Seq<RecordView<V>>, p: Seq<char>, e: EditView<V>, now: i128, q: Seq<char>)
    requires
        store_wf(s),
        store_wf(updated_store(s, p, None, e, now)),
        has_note(s, p),
        has_note(s, q),
        is_live(record_of(s, q)),
    ensures
        has_note(updated_store(s, p, None, e, now), q),
        note_index(updated_store(s, p, None, e, now), q) == note_index(s, q),
        is_live(record_of(updated_store(s, p, None, e, now), q)),
{
    let s1 = updated_store(s, p, None, e, now);
    let kq = note_index(s, q);
    let kp = note_index(s, p);
    assert(s1[kq].id == s[kq].id);
    lemma_note_index(s1, kq);
    if kq != kp {
        assert(s1[kq] == s[kq]);
    }
}

/// Whether every word of `lexemes` occurs in the title or the text, ignoring case.
pub fn note_contains_lexemes(title: &str, note_inner: &str, lexemes: &Vec<String>) -> (r: bool)
    ensures
        r == forall|i: int| 0 <= i < lexemes@.len() ==> mentions(title@, note_inner@, #[trigger] texts_of(lexemes@)[i]),
{
    let title_lower = to_lowercase(title);
    let title_chars = chars_of(title_lower.as_str());
    let text_lower = to_lowercase(note_inner);
    let text_chars = chars_of(text_lower.as_str());
    let mut i: usize = 0;
    while i < lexemes.len()
        invariant
            i <= lexemes.len(),
            title_chars@ == lowercase(title@),
            text_chars@ == lowercase(note_inner@),
            forall|j: int| 0 <= j < i ==> mentions(title@, note_inner@, #[trigger] texts_of(lexemes@)[j]),
        decreases lexemes.len() - i,
    {
        let w = to_lowercase(lexemes[i].as_str());
        let wc = chars_of(w.as_str());
        if !(contains_chars(&title_chars, &wc) || contains_chars(&text_chars, &wc)) {
            assert(!mentions(title@, note_inner@, texts_of(lexemes@)[i as int]));
            return false;
        }
        i += 1;
    }
    true
}

/// Whether no word of `lexemes_excluded` occurs in the title or the text, ignoring case.
pub fn note_excludes_lexemes(title: &str, note_inner: &str, lexemes_excluded: &Vec<String>) -> (r: bool)
    ensures
        r == forall|i: int|
            0 <= i < lexemes_excluded@.len() ==> !mentions(title@, note_inner@, #[trigger] texts_of(lexemes_excluded@)[i]),
{
    let title_lower = to_lowercase(title);
    let title_chars = chars_of(title_lower.as_str());
    let text_lower = to_lowercase(note_inner);
    let text_chars = chars_of(text_lower.as_str());
    let mut i: usize = 0;
    while i < lexemes_excluded.len()
        invariant
            i <= lexemes_excluded.len(),
            title_chars@ == lowercase(title@),
            text_chars@ == lowercase(note_inner@),
            forall|j: int| 0 <= j < i ==> !mentions(title@, note_inner@, #[trigger] texts_of(lexemes_excluded@)[j]),
        decreases lexemes_excluded.len() - i,
    {
        let w = to_lowercase(lexemes_excluded[i].as_str());
        let wc = chars_of(w.as_str());
        if contains_chars(&title_chars, &wc) || contains_chars(&text_chars, &wc) {
            assert(mentions(title@, note_inner@, texts_of(lexemes_excluded@)[i as int]));
            return false;
        }
        i += 1;
    }
    true
}

/// Whether a note is an orphan: it follows no note, has no parent and no
/// note refers to it.
fn note_is_orphan<T: NoteType>(note: &InMemoryNoteComputed<T>) -> (r: bool)
    ensures
        r == (note@.prev is None && note@.parent is None && note@.references.len() == 0),
{
    note.prev.is_none() && note.parent.is_none() && note.references.len() == 0
}

/// Whether a computed note answers a search request.
fn note_matches_request<T: NoteType>(sr: &SearchRequest, n: &InMemoryNoteComputed<T>) -> (r: bool)
    ensures
        r == note_matches::<T>(sr@, n@),
{
    let text = n.note_inner.search_text();
    let ghost tv = n@.title;
    let ghost xv = T::text_of(n@.inner);
    assert(texts_of(sr.lexemes@) =~= sr@.lexemes);
    assert(texts_of(sr.lexemes_excluded@) =~= sr@.lexemes_excluded);
    if !note_contains_lexemes(n.title.as_str(), text.as_str(), &sr.lexemes) {
        assert(!note_matches::<T>(sr@, n@)) by {
            let i = choose|i: int| 0 <= i < sr@.lexemes.len() && !mentions(tv, xv, #[trigger] sr@.lexemes[i]);
        }
        return false;
    }
    if !note_excludes_lexemes(n.title.as_str(), text.as_str(), &sr.lexemes_excluded) {
        assert(!note_matches::<T>(sr@, n@)) by {
            let i = choose|i: int| 0 <= i < sr@.lexemes_excluded.len() && mentions(tv, xv, #[trigger] sr@.lexemes_excluded[i]);
        }
        return false;
    }
    let mut i: usize = 0;
    while i < sr.tags.len()
        invariant
            i <= sr.tags.len(),
            forall|j: int| 0 <= j < i ==> n@.metadata.tags.contains(#[trigger] sr@.tags[j]),
        decreases sr.tags.len() - i,
    {
        if !contains_text(&n.metadata.tags, &sr.tags[i]) {
            assert(!n@.metadata.tags.contains(sr@.tags[i as int]));
            return false;
        }
        i += 1;
    }
    let mut i: usize = 0;
    while i < sr.tags_excluded.len()
        invariant
            i <= sr.tags_excluded.len(),
            forall|j: int| 0 <= j < i ==> !n@.metadata.tags.contains(#[trigger] sr@.tags_excluded[j]),
        decreases sr.tags_excluded.len() - i,
    {
        if contains_text(&n.metadata.tags, &sr.tags_excluded[i]) {
            assert(n@.metadata.tags.contains(sr@.tags_excluded[i as int]));
            return false;
        }
        i += 1;
    }
    if sr.orphan && !note_is_orphan(n) {
        return false;
    }
    if sr.no_tag && n.metadata.tags.len() > 0 {
        return false;
    }
    true
}

/// Whether the texts of `v` are distinct.
fn texts_distinct(v: &Vec<String>) -> (r: bool)
    ensures
        r == texts_of(v@).no_duplicates(),
{
    let ghost t = texts_of(v@);
    let mut i: usize = 0;
    while i < v.len()
        invariant
            i <= v.len(),
            t == texts_of(v@),
            forall|a: int, b: int| 0 <= a < b < t.len() && a < i ==> t[a] != t[b],
        decreases v.len() - i,
    {
        let mut j: usize = i + 1;
        while j < v.len()
            invariant
                i < j <= v.len(),
                t == texts_of(v@),
                forall|a: int, b: int| 0 <= a < b < t.len() && a < i ==> t[a] != t[b],
                forall|b: int| i < b < j ==> t[i as int] != t[b],
            decreases v.len() - j,
        {
            if v[i] == v[j] {
                assert(t[i as int] == t[j as int]);
                return false;
            }
            j += 1;
        }
        i += 1;
    }
    true
}

/// Whether the identifiers of `v` are distinct.
fn ids_distinct(v: &Vec<NoteID>) -> (r: bool)
    ensures
        r == ids_of(v@).no_duplicates(),
{
    let ghost t = ids_of(v@);
    let mut i: usize = 0;
    while i < v.len()
        invariant
            i <= v.len(),
            t == ids_of(v@),
            forall|a: int, b: int| 0 <= a < b < t.len() && a < i ==> t[a] != t[b],
        decreases v.len() - i,
    {
        let mut j: usize = i + 1;
        while j < v.len()
            invariant
                i < j <= v.len(),
                t == ids_of(v@),
                forall|a: int, b: int| 0 <= a < b < t.len() && a < i ==> t[a] != t[b],
                forall|b: int| i < b < j ==> t[i as int] != t[b],
            decreases v.len() - j,
        {
            if v[i].same(&v[j]) {
                assert(t[i as int] == t[j as int]);
                return false;
            }
            j += 1;
        }
        i += 1;
    }
    true
}

/// Whether a record is well formed as the `k`-th of a store.
fn record_ok<T: NoteType>(r: &NoteRecord<T>, k: usize) -> (b: bool)
    ensures
        b == record_wf(r@, k as nat),
{
    let ghost rv = r@;
    let name = note_id_for(k);
    if !r.id.same(&name) {
        return false;
    }
    let n = r.revisions.len();
    if n == 0 {
        return false;
    }
    let mut j: usize = 0;
    while j < n
        invariant
            j <= n,
            n == r.revisions.len(),
            rv == r@,
            name@ == note_id_text(k as nat),
            forall|i: int|
                0 <= i < j ==> {
                    &&& (#[trigger] rv.revisions[i]).id == note_id_text(k as nat)
                    &&& rv.revisions[i].revision == revision_text(i as nat)
                    &&& rv.revisions[i].metadata.schema_version <= NOTE_METADATA_CURRENT_SCHEMA_VERSION
                    &&& rv.revisions[i].metadata.tags.no_duplicates()
                    &&& rv.revisions[i].branches.no_duplicates()
                },
        decreases n - j,
    {
        let st = &r.revisions[j];
        assert(rv.revisions[j as int] == st@);
        let rev_name = revision_for(j);
        if !st.id.same(&name) || !st.revision.same(&rev_name)
            || st.metadata.schema_version > NOTE_METADATA_CURRENT_SCHEMA_VERSION
            || !texts_distinct(&st.metadata.tags) || !ids_distinct(&st.branches) {
            return false;
        }
        j += 1;
    }
    match r.current {
        Some(c) => c < n,
        None => true,
    }
}

/// The in-memory note store.
///
/// This is mostly designed for development use, because there is no persistence layer.
pub struct InMemoryStoreInner<T> {
    notes: Vec<NoteRecord<T>>,
}

impl<T: NoteType> View for InMemoryStoreInner<T> {
    type V = Seq<RecordView<T::V>>;

    closed spec fn view(&self) -> Seq<RecordView<T::V>> {
        self.notes@.map_values(|r: NoteRecord<T>| r@)
    }
}

impl<T: NoteType> InMemoryStoreInner<T> {
    /// The store is well formed.
    pub open spec fn wf(&self) -> bool {
        store_wf(self@)
    }

    /// An empty store.
    pub fn new() -> (r: Self)
        ensures
            r.wf(),
            r@ == Seq::<RecordView<T::V>>::empty(),
    {
        let r = InMemoryStoreInner { notes: Vec::new() };
        assert(r@ =~= Seq::<RecordView<T::V>>::empty());
        r
    }

    /// The records of the store, in creation order.
    pub fn records(&self) -> (r: &Vec<NoteRecord<T>>)
        ensures
            r@.map_values(|x: NoteRecord<T>| x@) == self@,
    {
        &self.notes
    }

    /// The name the next note created gets: `note-k` for the `k`-th note.
    fn get_new_noteid(&self) -> (r: NoteID)
        ensures
            r@ == note_id_text(self@.len()),
    {
        note_id_for(self.notes.len())
    }

    /// The name the next revision of the note at `k` gets: `revision-j` for
    /// its `j`-th revision.
    fn get_new_revision(&self, k: usize) -> (r: Revision)
        requires
            k < self@.len(),
        ensures
            r@ == revision_text(self@[k as int].revisions.len()),
    {
        assert(self@[k as int] == self.notes@[k as int]@);
        revision_for(self.notes[k].revisions.len())
    }

    /// The position of the note `id`, if the store has it.
    fn find_note(&self, id: &NoteID) -> (r: Option<usize>)
        requires
            self.wf(),
        ensures
            r is Some <==> has_note(self@, id@),
            r matches Some(k) ==> k == note_index(self@, id@) && k < self@.len(),
    {
        let mut k: usize = 0;
        while k < self.notes.len()
            invariant
                k <= self.notes.len(),
                self@ == self.notes@.map_values(|r: NoteRecord<T>| r@),
                store_wf(self@),
                forall|j: int| 0 <= j < k ==> self@[j].id != id@,
            decreases self.notes.len() - k,
        {
            if self.notes[k].id.same(id) {
                proof {
                    assert(self@[k as int].id == id@);
                    lemma_note_index(self@, k as int);
                }
                return Some(k);
            }
            k += 1;
        }
        proof {
            if has_note(self@, id@) {
                let j = choose|j: int| 0 <= j < self@.len() && (#[trigger] self@[j]).id == id@;
                assert(self@[j].id != id@);
            }
        }
        None
    }

    /// The position of revision `rev` in the record at `k`, if it has it.
    fn find_revision(&self, k: usize, rev: &Revision) -> (r: Option<usize>)
        requires
            self.wf(),
            k < self@.len(),
        ensures
            r is Some <==> has_revision(self@[k as int], rev@),
            r matches Some(j) ==> j == revision_index(self@[k as int], rev@) && j
                < self@[k as int].revisions.len(),
    {
        let record = &self.notes[k];
        let ghost rv = self@[k as int];
        assert(rv == record@);
        assert(record_wf(rv, k as nat));
        let mut j: usize = 0;
        while j < record.revisions.len()
            invariant
                j <= record.revisions.len(),
                rv == record@,
                rv == self@[k as int],
                k < self@.len(),
                record_wf(rv, k as nat),
                forall|i: int| 0 <= i < j ==> rv.revisions[i].revision != rev@,
            decreases record.revisions.len() - j,
        {
            if record.revisions[j].revision.same(rev) {
                proof {
                    assert(rv.revisions[j as int] == record.revisions@[j as int]@);
                    lemma_revision_index(rv, k as nat, j as int);
                }
                return Some(j);
            }
            assert(rv.revisions[j as int] == record.revisions@[j as int]@);
            j += 1;
        }
        proof {
            if has_revision(rv, rev@) {
                let i = choose|i: int|
                    0 <= i < rv.revisions.len() && (#[trigger] rv.revisions[i]).revision == rev@;
                assert(rv.revisions[i].revision != rev@);
            }
        }
        None
    }

    /// Whether the note a locator names is deleted: it has revisions but no current one.
    pub fn is_deleted(&self, loc: &NoteLocator) -> (r: Result<bool, NoteStoreError>)
        requires
            self.wf(),
        ensures
            plain_outcome(r) == deleted_outcome(self@, loc@.id),
    {
        let id = loc.get_id();
        match self.find_note(id) {
            None => Err(NoteStoreError::NoteNotExist(id.clone())),
            Some(k) => {
                assert(self@[k as int] == self.notes@[k as int]@);
                Ok(self.notes[k].current.is_none())
            },
        }
    }

    /// The current revision of the note a locator names; `None` for a deleted note.
    pub fn get_current_revision(&self, loc: &NoteLocator) -> (r: Result<Option<Revision>, NoteStoreError>)
        requires
            self.wf(),
        ensures
            plain_outcome(match r {
                Ok(Some(rev)) => Ok(Some(rev@)),
                Ok(None) => Ok(None),
                Err(e) => Err(e),
            }) == current_revision_outcome(self@, loc@.id),
    {
        let id = loc.get_id();
        match self.find_note(id) {
            None => Err(NoteStoreError::NoteNotExist(id.clone())),
            Some(k) => {
                let ghost rv = self@[k as int];
                assert(rv == self.notes@[k as int]@);
                assert(record_wf(rv, k as nat));
                match self.notes[k].current {
                    Some(c) => {
                        assert(rv.revisions[c as int] == self.notes@[k as int].revisions@[c as int]@);
                        Ok(Some(self.notes[k].revisions[c].revision.clone()))
                    },
                    None => Ok(None),
                }
            },
        }
    }

    /// Whether a locator points at the current revision of its note; a
    /// locator without a revision does so unless the note is deleted.
    pub fn is_current(&self, loc: &NoteLocator) -> (r: Result<bool, NoteStoreError>)
        requires
            self.wf(),
        ensures
            plain_outcome(r) == current_outcome(self@, loc@.id, loc@.revision),
    {
        if let Some(r) = loc.get_revision() {
            match self.get_current_revision(loc) {
                Err(e) => Err(e),
                Ok(Some(cr)) => Ok(cr.same(r)),
                Ok(None) => Ok(false),
            }
        } else {
            match self.is_deleted(loc) {
                Err(e) => Err(e),
                Ok(d) => Ok(!d),
            }
        }
    }

    /// The revision `rev` of note `id`.
    pub fn get_note_by_revision(&self, id: &NoteID, rev: &Revision) -> (r: Result<InMemoryNoteStored<T>, NoteStoreError>)
        requires
            self.wf(),
        ensures
            outcome(r) == by_revision_outcome(self@, id@, rev@),
    {
        match self.find_note(id) {
            None => Err(NoteStoreError::NoteNotExist(id.clone())),
            Some(k) => match self.find_revision(k, rev) {
                None => Err(NoteStoreError::RevisionNotExist(id.clone(), rev.clone())),
                Some(j) => {
                    assert(self@[k as int] == self.notes@[k as int]@);
                    assert(self@[k as int].revisions[j as int] == self.notes@[k as int].revisions@[j as int]@);
                    Ok(self.notes[k].revisions[j].duplicate())
                },
            },
        }
    }

    /// The revision a locator points at.
    pub fn get_note_stored(&self, loc: &NoteLocator) -> (r: Result<InMemoryNoteStored<T>, NoteStoreError>)
        requires
            self.wf(),
        ensures
            outcome(r) == stored_outcome(self@, loc@.id, loc@.revision),
    {
        let (id, rev) = loc.unpack();
        if let Some(r) = rev {
            self.get_note_by_revision(id, r)
        } else {
            match self.find_note(id) {
                None => Err(NoteStoreError::NoteNotExist(id.clone())),
                Some(k) => {
                    let ghost rv = self@[k as int];
                    assert(rv == self.notes@[k as int]@);
                    assert(record_wf(rv, k as nat));
                    match self.notes[k].current {
                        Some(c) => {
                            assert(rv.revisions[c as int] == self.notes@[k as int].revisions@[c as int]@);
                            Ok(self.notes[k].revisions[c].duplicate())
                        },
                        None => Err(NoteStoreError::RevisionNotExist(id.clone(), Revision::new("current".to_owned()))),
                    }
                },
            }
        }
    }

    /// Creates a note at `now`; it gets the next note name and its first revision.
    fn new_note_helper(&mut self, title: String, note_inner: T, metadata: NoteMetadataEditable, now: i128) -> (r: NoteLocator)
        requires
            old(self).wf(),
        ensures
            final(self).wf(),
            final(self)@ == with_new_note(old(self)@, title@, note_inner@, metadata@, now),
            r@.id == note_id_text(old(self)@.len()),
            r@.revision == Some(revision_text(0)),
    {
        let k = self.notes.len();
        let id = self.get_new_noteid();
        let revision = revision_for(0);
        let ghost md = metadata@;
        let note = InMemoryNoteStored {
            title,
            note_inner,
            id: id.clone(),
            revision: revision.clone(),
            branches: Vec::new(),
            next: None,
            metadata: NoteMetadata::from_editable_at(metadata, now),
        };
        let ghost nv = note@;
        let mut revisions: Vec<InMemoryNoteStored<T>> = Vec::new();
        revisions.push(note);
        let record = NoteRecord { id: id.clone(), revisions, current: Some(0) };
        let ghost before = self@;
        self.notes.push(record);
        proof {
            assert(ids_of(Seq::<NoteID>::empty()) =~= Seq::<Seq<char>>::empty());
            assert(record@.revisions =~= seq![nv]);
            assert(self@ =~= before.push(record@));
            match md.tags {
                Some(t) => crate::notemetadata::lemma_dedup_no_duplicates(t),
                None => {},
            }
            assert(record_wf(record@, k as nat));
            assert forall|i: int| 0 <= i < self@.len() implies record_wf(#[trigger] self@[i], i as nat) by {
                if i < before.len() {
                    assert(self@[i] == before[i]);
                }
            }
            assert(self@ =~= with_new_note(before, title@, note_inner@, md, now));
        }
        NoteLocator::Specific(id, revision)
    }

    /// Updates a note through a locator, writing a new current revision at `now`.
    ///
    /// The locator must point at the current revision, unless the note is
    /// deleted: then the revision it points at is resurrected.
    fn update_note_helper(&mut self, loc: &NoteLocator, edit: StoredEdit<T>, now: i128) -> (r: Result<NoteLocator, NoteStoreError>)
        requires
            old(self).wf(),
        ensures
            final(self).wf(),
            match update_error(old(self)@, loc@.id, loc@.revision) {
                Some(err) => r matches Err(e) && e@ == err && final(self)@ == old(self)@,
                None => r matches Ok(l) && l@.id == loc@.id && l@.revision == Some(
                    revision_text(record_of(old(self)@, loc@.id).revisions.len()),
                ) && final(self)@ == updated_store(old(self)@, loc@.id, loc@.revision, edit@, now),
            },
    {
        let (id, rev) = loc.unpack();
        let is_resurrecting = match self.is_deleted(loc) {
            Err(e) => return Err(e),
            Ok(d) => d,
        };
        let k = match self.find_note(id) {
            Some(k) => k,
            None => return Err(NoteStoreError::NoteNotExist(id.clone())),
        };
        let ghost s = self@;
        let ghost rv = s[k as int];
        proof {
            assert(rv == self.notes@[k as int]@);
            assert(record_wf(rv, k as nat));
        }
        if !is_resurrecting {
            match self.is_current(loc) {
                Err(e) => return Err(e),
                Ok(c) => {
                    if !c {
                        match rev {
                            Some(r) => return Err(NoteStoreError::UpdateOldRevision(id.clone(), r.clone())),
                            None => {
                                assert(false);
                                return Err(NoteStoreError::NoteNotExist(id.clone()));
                            },
                        }
                    }
                },
            }
        }
        let old_note = match self.get_note_stored(loc) {
            Err(e) => return Err(e),
            Ok(n) => n,
        };
        let ghost base = old_note@;
        proof {
            if !is_resurrecting {
                match loc@.revision {
                    Some(r) => {
                        let c = rv.current->0;
                        lemma_revision_index(rv, k as nat, c);
                    },
                    None => {},
                }
                assert(base == current_of(rv));
            } else {
                let j = match loc@.revision {
                    Some(r) => revision_index(rv, r),
                    None => 0,
                };
                assert(base == rv.revisions[j]);
            }
        }
        let n = self.notes[k].revisions.len();
        let new_rev = self.get_new_revision(k);
        let ghost ev = edit@;
        let mut updated_note = apply_edit(old_note, edit);
        updated_note.revision = new_rev.clone();
        updated_note.metadata = updated_note.metadata.on_update_note_at(now);
        if is_resurrecting {
            updated_note.next = None;
            updated_note.branches = Vec::new();
        }
        let ghost nv = updated_note@;
        proof {
            if is_resurrecting {
                assert(ids_of(Seq::<NoteID>::empty()) =~= Seq::<Seq<char>>::empty());
            }
            assert(nv == new_revision(base, ev, n as nat, now, is_resurrecting));
            match ev {
                EditView::Content { title, inner, metadata } => {
                    match metadata.tags {
                        Some(t) => crate::notemetadata::lemma_dedup_no_duplicates(t),
                        None => {},
                    }
                },
                EditView::AddBranch(c) => {
                    lemma_set_insert_distinct(base.branches, c);
                },
                EditView::Rebranch(c, m) => {
                    lemma_rebranched_distinct(base.branches, c, m);
                },
                _ => {},
            }
        }
        let mut record = self.notes.remove(k);
        assert(record@ == rv);
        record.revisions.push(updated_note);
        record.current = Some(n);
        let ghost new_rv = record@;
        proof {
            assert(new_rv.revisions =~= rv.revisions.push(nv));
            assert(record_wf(new_rv, k as nat)) by {
                assert forall|j: int| 0 <= j < new_rv.revisions.len() implies {
                    &&& (#[trigger] new_rv.revisions[j]).id == note_id_text(k as nat)
                    &&& new_rv.revisions[j].revision == revision_text(j as nat)
                    &&& new_rv.revisions[j].metadata.schema_version <= NOTE_METADATA_CURRENT_SCHEMA_VERSION
                    &&& new_rv.revisions[j].metadata.tags.no_duplicates()
                    &&& new_rv.revisions[j].branches.no_duplicates()
                } by {
                    if j < n {
                        assert(new_rv.revisions[j] == rv.revisions[j]);
                    } else {
                        assert(Seq::<Seq<char>>::empty().no_duplicates());
                    }
                }
            }
        }
        self.notes.insert(k, record);
        proof {
            assert(self@ =~= s.update(k as int, new_rv));
            assert forall|i: int| 0 <= i < self@.len() implies record_wf(#[trigger] self@[i], i as nat) by {
                if i != k {
                    assert(self@[i] == s[i]);
                }
            }
            lemma_note_index(s, k as int);
            assert(self@ =~= updated_store(s, loc@.id, loc@.revision, ev, now));
        }
        Ok(NoteLocator::Specific(id.clone(), new_rev))
    }

    /// The notes whose current content refers to `referent`, in creation order.
    fn get_references(&self, referent: &NoteID) -> (r: Vec<NoteID>)
        requires
            self.wf(),
            all_readable::<T>(self@),
        ensures
            ids_of(r@) == referrers::<T>(self@, referent@),
    {
        let ghost s = self@;
        let mut refs: Vec<NoteID> = Vec::new();
        let mut k: usize = 0;
        while k < self.notes.len()
            invariant
                k <= self.notes.len(),
                s == self@,
                s == self.notes@.map_values(|r: NoteRecord<T>| r@),
                store_wf(s),
                all_readable::<T>(s),
                ids_of(refs@) == referrers::<T>(s.take(k as int), referent@),
            decreases self.notes.len() - k,
        {
            proof {
                lemma_filter_step(s, |r: RecordView<T::V>| refers_to::<T>(r, referent@), |r: RecordView<T::V>| r.id, k as int);
                assert(s[k as int] == self.notes@[k as int]@);
                assert(record_wf(s[k as int], k as nat));
            }
            let ghost before = ids_of(refs@);
            if let Some(c) = self.notes[k].current {
                assert(s[k as int].revisions[c as int] == self.notes@[k as int].revisions@[c as int]@);
                match self.notes[k].revisions[c].note_inner.get_referents() {
                    Ok(v) => {
                        if contains_id(&v, referent) {
                            let id = self.notes[k].id.clone();
                            refs.push(id);
                            proof {
                                assert(ids_of(refs@) =~= before.push(s[k as int].id));
                            }
                        } else {
                            assert(!ids_of(v@).to_set().contains(referent@));
                        }
                    },
                    Err(_) => {
                        assert(false);
                    },
                }
            }
            k += 1;
        }
        proof {
            assert(s.take(self.notes.len() as int) =~= s);
        }
        refs
    }

    /// The parent of `child`: the first live note that has it as a branch.
    fn get_parent(&self, child: &NoteID) -> (r: Option<NoteID>)
        requires
            self.wf(),
        ensures
            opt_id(r) == parent_of(self@, child@),
    {
        let ghost s = self@;
        let ghost f = |r: RecordView<T::V>| has_branch(r, child@);
        let ghost g = |r: RecordView<T::V>| r.id;
        let mut k: usize = 0;
        while k < self.notes.len()
            invariant
                k <= self.notes.len(),
                s == self@,
                s == self.notes@.map_values(|r: NoteRecord<T>| r@),
                store_wf(s),
                f == (|r: RecordView<T::V>| has_branch(r, child@)),
                g == (|r: RecordView<T::V>| r.id),
                s.take(k as int).filter(f).len() == 0,
            decreases self.notes.len() - k,
        {
            proof {
                lemma_filter_step(s, f, g, k as int);
                assert(s[k as int] == self.notes@[k as int]@);
                assert(record_wf(s[k as int], k as nat));
            }
            if let Some(c) = self.notes[k].current {
                assert(s[k as int].revisions[c as int] == self.notes@[k as int].revisions@[c as int]@);
                if contains_id(&self.notes[k].revisions[c].branches, child) {
                    proof {
                        lemma_filter_first(s, f, g, k as int);
                    }
                    return Some(self.notes[k].id.clone());
                }
            }
            k += 1;
        }
        proof {
            assert(s.take(self.notes.len() as int) =~= s);
        }
        None
    }

    /// The note before `next` in a sequence: the first live note that `next` follows.
    fn get_prev(&self, next: &NoteID) -> (r: Option<NoteID>)
        requires
            self.wf(),
        ensures
            opt_id(r) == prev_of(self@, next@),
    {
        let ghost s = self@;
        let ghost f = |r: RecordView<T::V>| is_followed_by(r, next@);
        let ghost g = |r: RecordView<T::V>| r.id;
        let mut k: usize = 0;
        while k < self.notes.len()
            invariant
                k <= self.notes.len(),
                s == self@,
                s == self.notes@.map_values(|r: NoteRecord<T>| r@),
                store_wf(s),
                f == (|r: RecordView<T::V>| is_followed_by(r, next@)),
                g == (|r: RecordView<T::V>| r.id),
                s.take(k as int).filter(f).len() == 0,
            decreases self.notes.len() - k,
        {
            proof {
                lemma_filter_step(s, f, g, k as int);
                assert(s[k as int] == self.notes@[k as int]@);
                assert(record_wf(s[k as int], k as nat));
            }
            if let Some(c) = self.notes[k].current {
                assert(s[k as int].revisions[c as int] == self.notes@[k as int].revisions@[c as int]@);
                if let Some(nn) = &self.notes[k].revisions[c].next {
                    if nn.same(next) {
                        proof {
                            lemma_filter_first(s, f, g, k as int);
                        }
                        return Some(self.notes[k].id.clone());
                    }
                }
            }
            k += 1;
        }
        proof {
            assert(s.take(self.notes.len() as int) =~= s);
        }
        None
    }

    /// The current revisions of all live notes, in creation order.
    fn get_all_current_notes(&self) -> (r: Vec<InMemoryNoteStored<T>>)
        requires
            self.wf(),
        ensures
            r@.map_values(|n: InMemoryNoteStored<T>| n@) == current_notes(self@),
    {
        let ghost s = self@;
        let mut out: Vec<InMemoryNoteStored<T>> = Vec::new();
        let mut k: usize = 0;
        while k < self.notes.len()
            invariant
                k <= self.notes.len(),
                s == self@,
                s == self.notes@.map_values(|r: NoteRecord<T>| r@),
                store_wf(s),
                out@.map_values(|n: InMemoryNoteStored<T>| n@) == current_notes(s.take(k as int)),
            decreases self.notes.len() - k,
        {
            proof {
                lemma_filter_step(s, |r: RecordView<T::V>| is_live(r), |r: RecordView<T::V>| current_of(r), k as int);
                assert(s[k as int] == self.notes@[k as int]@);
                assert(record_wf(s[k as int], k as nat));
            }
            if let Some(c) = self.notes[k].current {
                assert(s[k as int].revisions[c as int] == self.notes@[k as int].revisions@[c as int]@);
                let n = self.notes[k].revisions[c].duplicate();
                let ghost before = out@;
                out.push(n);
                proof {
                    assert(out@.map_values(|n: InMemoryNoteStored<T>| n@) =~= before.map_values(|n: InMemoryNoteStored<T>| n@).push(n@));
                }
            }
            k += 1;
        }
        proof {
            assert(s.take(self.notes.len() as int) =~= s);
        }
        out
    }

    /// Computes the relationships of a stored revision with the rest of the store.
    fn compute_stored_note(&self, s: InMemoryNoteStored<T>) -> (r: Result<InMemoryNoteComputed<T>, NoteStoreError>)
        requires
            self.wf(),
            all_readable::<T>(self@),
        ensures
            erased(outcome(r)) == compute_outcome::<T>(self@, s@),
    {
        let referents = match s.note_inner.get_referents() {
            Ok(v) => v,
            Err(e) => return Err(NoteStoreError::ParseError(T::error_message(&e))),
        };
        let references = self.get_references(&s.id);
        let parent = self.get_parent(&s.id);
        let prev = self.get_prev(&s.id);
        let current_revision = match self.get_current_revision(&NoteLocator::Current(s.id.clone())) {
            Err(e) => return Err(e),
            Ok(c) => c,
        };
        let is_current = match current_revision {
            Some(r) => s.revision.same(&r),
            None => false,
        };
        Ok(InMemoryNoteComputed {
            title: s.title,
            note_inner: s.note_inner,
            id: s.id,
            revision: s.revision,
            is_current,
            parent,
            branches: s.branches,
            prev,
            next: s.next,
            referents,
            references,
            metadata: s.metadata,
        })
    }

    /// The note a locator points at, with its relationships.
    pub fn get_note(&self, loc: &NoteLocator) -> (r: Result<InMemoryNoteComputed<T>, NoteStoreError>)
        requires
            self.wf(),
            all_readable::<T>(self@),
        ensures
            erased(outcome(r)) == note_outcome::<T>(self@, loc@.id, loc@.revision),
    {
        let note_stored = match self.get_note_stored(loc) {
            Err(e) => return Err(e),
            Ok(n) => n,
        };
        self.compute_stored_note(note_stored)
    }

    /// Creates a note at time `now`: it is named after its position among
    /// the notes and its first revision is current.
    pub fn new_note_at(&mut self, title: String, note_inner: T, metadata: NoteMetadataEditable, now: i128) -> (r: Result<NoteLocator, NoteStoreError>)
        requires
            old(self).wf(),
        ensures
            final(self).wf(),
            final(self)@ == with_new_note(old(self)@, title@, note_inner@, metadata@, now),
            r matches Ok(l) && l@.id == note_id_text(old(self)@.len()) && l@.revision == Some(revision_text(0)),
    {
        Ok(self.new_note_helper(title, note_inner, metadata, now))
    }

    /// Creates a note, written now.
    pub fn new_note(&mut self, title: String, note_inner: T, metadata: NoteMetadataEditable) -> (r: Result<NoteLocator, NoteStoreError>)
        requires
            old(self).wf(),
        ensures
            final(self).wf(),
            exists|now: i128| final(self)@ == with_new_note(old(self)@, title@, note_inner@, metadata@, now),
            r matches Ok(l) && l@.id == note_id_text(old(self)@.len()) && l@.revision == Some(revision_text(0)),
    {
        let now = now_timestamp();
        self.new_note_at(title, note_inner, metadata, now)
    }

    /// Updates the title, content and metadata of a note at time `now`; the
    /// new revision becomes current.
    ///
    /// The locator must point at the current revision, unless the note is
    /// deleted: then the revision it points at is resurrected, standing
    /// alone, without branches and without a next note.
    pub fn update_note_at(
        &mut self,
        loc: &NoteLocator,
        title: Option<String>,
        note_inner: Option<T>,
        note_metadata: NoteMetadataEditable,
        now: i128,
    ) -> (r: Result<NoteLocator, NoteStoreError>)
        requires
            old(self).wf(),
        ensures
            final(self).wf(),
            ({
                let e = content_edit(title, note_inner, note_metadata);
                match update_error(old(self)@, loc@.id, loc@.revision) {
                    Some(err) => r matches Err(x) && x@ == err && final(self)@ == old(self)@,
                    None => r matches Ok(l) && l@.id == loc@.id && l@.revision == Some(
                        revision_text(record_of(old(self)@, loc@.id).revisions.len()),
                    ) && final(self)@ == updated_store(old(self)@, loc@.id, loc@.revision, e, now),
                }
            }),
    {
        self.update_note_helper(loc, StoredEdit::Content { title, note_inner, metadata: note_metadata }, now)
    }

    /// Updates the title, content and metadata of a note, now.
    pub fn update_note(
        &mut self,
        loc: &NoteLocator,
        title: Option<String>,
        note_inner: Option<T>,
        note_metadata: NoteMetadataEditable,
    ) -> (r: Result<NoteLocator, NoteStoreError>)
        requires
            old(self).wf(),
        ensures
            final(self).wf(),
            ({
                let e = content_edit(title, note_inner, note_metadata);
                match update_error(old(self)@, loc@.id, loc@.revision) {
                    Some(err) => r matches Err(x) && x@ == err && final(self)@ == old(self)@,
                    None => r matches Ok(l) && l@.id == loc@.id && l@.revision == Some(
                        revision_text(record_of(old(self)@, loc@.id).revisions.len()),
                    ) && exists|now: i128| final(self)@ == updated_store(old(self)@, loc@.id, loc@.revision, e, now),
                }
            }),
    {
        let ghost e = content_edit(title, note_inner, note_metadata);
        let ghost before = self@;
        let now = now_timestamp();
        let r = self.update_note_at(loc, title, note_inner, note_metadata, now);
        proof {
            if update_error(before, loc@.id, loc@.revision) is None {
                assert(self@ == updated_store(before, loc@.id, loc@.revision, e, now));
            }
        }
        r
    }

    /// Deletes the current revision of a note at time `now`; its earlier
    /// revisions stay readable. A note with branches, or that the current
    /// content of a note refers to, is not deleted. The note is taken out of
    /// its sequence and from under its parent: the note before it is updated
    /// to be followed by the note after it (by none, for the last note), and
    /// its parent loses it as a branch and gains the note after it.
    #[verifier::spinoff_prover]
    #[verifier::rlimit(40)]
    pub fn delete_note_at(&mut self, loc: &NoteLocator, now: i128) -> (r: Result<(), NoteStoreError>)
        requires
            old(self).wf(),
            all_readable::<T>(old(self)@),
            loc@.revision is None ==> !(has_note(old(self)@, loc@.id) && !is_live(
                record_of(old(self)@, loc@.id),
            )),
        ensures
            final(self).wf(),
            match delete_outcome::<T>(old(self)@, loc@.id, loc@.revision, now) {
                Err(err) => r matches Err(x) && x@ == err && final(self)@ == old(self)@,
                Ok(after) => r is Ok && final(self)@ == after,
            },
    {
        let ghost s = self@;
        let (id, rev) = loc.unpack();
        let cur = match self.is_current(loc) {
            Err(e) => return Err(e),
            Ok(c) => c,
        };
        if !cur {
            match rev {
                Some(r) => return Err(NoteStoreError::DeleteOldRevision(id.clone(), r.clone())),
                None => {
                    assert(false);
                    return Err(NoteStoreError::NoteNotExist(id.clone()));
                },
            }
        }
        let k = match self.find_note(id) {
            Some(k) => k,
            None => return Err(NoteStoreError::NoteNotExist(id.clone())),
        };
        let ghost rv = s[k as int];
        proof {
            assert(rv == self.notes@[k as int]@);
            assert(record_wf(rv, k as nat));
        }
        let note = match self.get_note_stored(loc) {
            Ok(n) => n,
            Err(e) => return Err(e),
        };
        let ghost c = note@;
        proof {
            match loc@.revision {
                Some(r) => {
                    lemma_revision_index(rv, k as nat, rv.current->0);
                },
                None => {},
            }
            assert(c == current_of(rv));
        }
        if note.branches.len() > 0 {
            return Err(NoteStoreError::HasBranches(id.clone()));
        }
        let refs = self.get_references(id);
        if refs.len() > 0 {
            return Err(NoteStoreError::HasReferences(id.clone()));
        }
        let prev = self.get_prev(id);
        let parent = self.get_parent(id);
        proof {
            lemma_note_index(s, k as int);
            assert(delete_outcome::<T>(s, id@, loc@.revision, now) is Ok);
            crate::notestore::laws::lemma_relinked_wf::<T>(s, id@, loc@.revision, now);
        }
        match prev {
            Some(prev_id) => {
                let next = copy_opt_id(&note.next);
                let _ = self.update_note_helper(&NoteLocator::Current(prev_id), StoredEdit::SetNext(next), now);
            },
            None => {},
        }
        match parent {
            Some(parent_id) => {
                let next = copy_opt_id(&note.next);
                let _ = self.update_note_helper(&NoteLocator::Current(parent_id), StoredEdit::Rebranch(id.clone(), next), now);
            },
            None => {},
        }
        let ghost s2 = self@;
        proof {
            assert(s2 == relinked_store(s, id@, c.next, now));
            lemma_delete_keeps_wf(s2, k as int);
        }
        let mut record = self.notes.remove(k);
        assert(record@ == s2[k as int]);
        record.current = None;
        let ghost new_rv = record@;
        self.notes.insert(k, record);
        proof {
            assert(self@ =~= s2.update(k as int, new_rv));
            assert(new_rv == RecordView { current: None, ..s2[k as int] });
        }
        Ok(())
    }

    /// Deletes the current revision of a note, now.
    pub fn delete_note(&mut self, loc: &NoteLocator) -> (r: Result<(), NoteStoreError>)
        requires
            old(self).wf(),
            all_readable::<T>(old(self)@),
            loc@.revision is None ==> !(has_note(old(self)@, loc@.id) && !is_live(
                record_of(old(self)@, loc@.id),
            )),
        ensures
            final(self).wf(),
            exists|now: i128|
                match #[trigger] delete_outcome::<T>(old(self)@, loc@.id, loc@.revision, now) {
                    Err(err) => r matches Err(x) && x@ == err && final(self)@ == old(self)@,
                    Ok(after) => r is Ok && final(self)@ == after,
                },
    {
        let now = now_timestamp();
        self.delete_note_at(loc, now)
    }

    /// Creates a note at `now` and appends it after `last`, which must be the
    /// current last note of its sequence.
    pub fn append_note_at(&mut self, last: &NoteID, title: String, note_inner: T, metadata: NoteMetadataEditable, now: i128) -> (r: Result<NoteLocator, NoteStoreError>)
        requires
            old(self).wf(),
        ensures
            final(self).wf(),
            match append_outcome(old(self)@, last@, title@, note_inner@, metadata@, now) {
                Err(err) => r matches Err(x) && x@ == err && final(self)@ == old(self)@,
                Ok(after) => r matches Ok(l) && l@.id == note_id_text(old(self)@.len())
                    && l@.revision == Some(revision_text(0)) && final(self)@ == after,
            },
    {
        let ghost s = self@;
        let last_loc = NoteLocator::Current(last.clone());
        let last_note = match self.get_note_stored(&last_loc) {
            Err(e) => return Err(e),
            Ok(n) => n,
        };
        if let Some(n) = last_note.next {
            return Err(NoteStoreError::ExistingNext(last_note.id, n));
        }
        let ghost md = metadata@;
        let ghost tv = title@;
        let ghost iv = note_inner@;
        let loc = self.new_note_helper(title, note_inner, metadata, now);
        proof {
            lemma_push_keeps(s, self@.last(), last@);
            assert(self@ == s.push(self@.last()));
            lemma_live_update(self@, last@);
        }
        let new_id = loc.get_id().clone();
        match self.update_note_helper(&last_loc, StoredEdit::SetNext(Some(new_id)), now) {
            Err(e) => {
                assert(false);
                return Err(e);
            },
            Ok(_) => {},
        }
        Ok(loc)
    }

    /// Creates a note and appends it after `last`, now.
    pub fn append_note(&mut self, last: &NoteID, title: String, note_inner: T, metadata: NoteMetadataEditable) -> (r: Result<NoteLocator, NoteStoreError>)
        requires
            old(self).wf(),
        ensures
            final(self).wf(),
            r matches Ok(l) ==> l@.id == note_id_text(old(self)@.len()) && l@.revision == Some(
                revision_text(0),
            ),
            exists|now: i128|
                match #[trigger] append_outcome(old(self)@, last@, title@, note_inner@, metadata@, now) {
                    Err(err) => r matches Err(x) && x@ == err && final(self)@ == old(self)@,
                    Ok(after) => r matches Ok(l) && l@.id == note_id_text(old(self)@.len())
                        && l@.revision == Some(revision_text(0)) && final(self)@ == after,
                },
    {
        let now = now_timestamp();
        self.append_note_at(last, title, note_inner, metadata, now)
    }

    /// Creates a note at `now` and adds it as a branch of `parent`. The note is
    /// created first, so it stays even when the parent cannot be updated.
    pub fn add_branch_at(&mut self, parent: &NoteID, title: String, note_inner: T, metadata: NoteMetadataEditable, now: i128) -> (r: Result<NoteLocator, NoteStoreError>)
        requires
            old(self).wf(),
        ensures
            final(self).wf(),
            ({
                let (after, err) = branch_outcome(old(self)@, parent@, title@, note_inner@, metadata@, now);
                &&& final(self)@ == after
                &&& match err {
                    Some(e) => r matches Err(x) && x@ == e,
                    None => r matches Ok(l) && l@.id == note_id_text(old(self)@.len())
                        && l@.revision == Some(revision_text(0)),
                }
            }),
    {
        let parent_loc = NoteLocator::Current(parent.clone());
        let child_loc = self.new_note_helper(title, note_inner, metadata, now);
        let child_id = child_loc.get_id().clone();
        match self.update_note_helper(&parent_loc, StoredEdit::AddBranch(child_id), now) {
            Err(e) => Err(e),
            Ok(_) => Ok(child_loc),
        }
    }

    /// Creates a note and adds it as a branch of `parent`, now.
    pub fn add_branch(&mut self, parent: &NoteID, title: String, note_inner: T, metadata: NoteMetadataEditable) -> (r: Result<NoteLocator, NoteStoreError>)
        requires
            old(self).wf(),
        ensures
            final(self).wf(),
            exists|now: i128|
                {
                    let (after, err) = #[trigger] branch_outcome(old(self)@, parent@, title@, note_inner@, metadata@, now);
                    &&& final(self)@ == after
                    &&& match err {
                        Some(e) => r matches Err(x) && x@ == e,
                        None => r matches Ok(l) && l@.id == note_id_text(old(self)@.len())
                            && l@.revision == Some(revision_text(0)),
                    }
                },
    {
        let now = now_timestamp();
        self.add_branch_at(parent, title, note_inner, metadata, now)
    }

    /// All revisions of the note a locator names, the least recently modified
    /// first; revisions modified at the same time keep the order in which they
    /// were written. Only the note's name in the locator matters.
    pub fn get_revisions(&self, loc: &NoteLocator) -> (r: Result<Vec<InMemoryNoteComputed<T>>, NoteStoreError>)
        requires
            self.wf(),
            all_readable::<T>(self@),
        ensures
            !has_note(self@, loc@.id) ==> (r matches Err(e) && e@ == StoreErrorView::NoteNotExist(loc@.id)),
            has_note(self@, loc@.id) ==> {
                let revs = record_of(self@, loc@.id).revisions;
                &&& (r is Ok <==> forall|j: int| 0 <= j < revs.len() ==> T::readable(#[trigger] revs[j].inner))
                &&& (r matches Err(e) ==> e@ is ParseError)
                &&& (r matches Ok(v) ==> exists|idx: Seq<int>|
                    is_key_order(modification_keys(revs), idx) && computed_views(v@) == idx.map_values(
                        |i: int| computed_of::<T>(self@, revs[i]),
                    ))
            },
    {
        let ghost s = self@;
        let id = loc.get_id();
        let k = match self.find_note(id) {
            None => return Err(NoteStoreError::NoteNotExist(id.clone())),
            Some(k) => k,
        };
        let record = &self.notes[k];
        let ghost rv = s[k as int];
        let ghost revs = rv.revisions;
        proof {
            assert(rv == record@);
            assert(record_wf(rv, k as nat));
        }
        let mut keys: Vec<i128> = Vec::new();
        let mut j: usize = 0;
        while j < record.revisions.len()
            invariant
                j <= record.revisions.len(),
                rv == record@,
                revs == rv.revisions,
                keys@ == modification_keys(revs).take(j as int),
            decreases record.revisions.len() - j,
        {
            assert(revs[j as int] == record.revisions@[j as int]@);
            keys.push(record.revisions[j].metadata.modified_at);
            assert(keys@ =~= modification_keys(revs).take(j + 1));
            j += 1;
        }
        assert(keys@ =~= modification_keys(revs));
        let idx = key_order(&keys);
        let ghost order = positions(idx@);
        let mut out: Vec<InMemoryNoteComputed<T>> = Vec::new();
        let mut t: usize = 0;
        while t < idx.len()
            invariant
                t <= idx.len(),
                s == self@,
                store_wf(s),
                all_readable::<T>(s),
                k < s.len(),
                has_note(s, loc@.id),
                k == note_index(s, loc@.id),
                rv == s[k as int],
                rv == record@,
                record_wf(rv, k as nat),
                revs == rv.revisions,
                order == positions(idx@),
                is_key_order(modification_keys(revs), order),
                computed_views(out@) == order.take(t as int).map_values(|i: int| computed_of::<T>(s, revs[i])),
                forall|a: int| 0 <= a < t ==> T::readable(#[trigger] revs[order[a]].inner),
            decreases idx.len() - t,
        {
            let i = idx[t];
            proof {
                assert(order.contains(order[t as int]));
                assert(revs[i as int] == record.revisions@[i as int]@);
                lemma_note_index(s, k as int);
            }
            let n = record.revisions[i].duplicate();
            match self.compute_stored_note(n) {
                Err(e) => {
                    proof {
                        assert(0 <= i < revs.len());
                        assert(has_note(s, revs[i as int].id));
                        assert(!T::readable(revs[i as int].inner));
                        assert(e@ is ParseError);
                    }
                    return Err(e);
                },
                Ok(c) => {
                    let ghost before = out@;
                    out.push(c);
                    proof {
                        assert(computed_views(out@) =~= computed_views(before).push(c@));
                        assert(order.take(t + 1) =~= order.take(t as int).push(order[t as int]));
                        assert(order.take(t + 1).map_values(|i: int| computed_of::<T>(s, revs[i])) =~=
                            order.take(t as int).map_values(|i: int| computed_of::<T>(s, revs[i])).push(computed_of::<T>(s, revs[order[t as int]])));
                    }
                },
            }
            t += 1;
        }
        proof {
            assert(order.take(idx.len() as int) =~= order);
            lemma_note_index(s, k as int);
            assert forall|j: int| 0 <= j < revs.len() implies T::readable(#[trigger] revs[j].inner) by {
                assert(order.contains(j));
                let a = choose|a: int| 0 <= a < order.len() && order[a] == j;
                assert(T::readable(revs[order[a]].inner));
            }
        }
        Ok(out)
    }

    /// The notes that answer a search request: see [`search_result`].
    pub fn search(&self, sr: &SearchRequest) -> (r: Result<Vec<InMemoryNoteComputed<T>>, NoteStoreError>)
        requires
            self.wf(),
            all_readable::<T>(self@),
        ensures
            r matches Ok(v) && search_result::<T>(self@, sr@, computed_views(v@)),
    {
        let ghost s = self@;
        let ghost f = |r: RecordView<T::V>| record_matches::<T>(s, sr@, r);
        let ghost g = |r: RecordView<T::V>| computed_of::<T>(s, current_of(r));
        let mut found: Vec<InMemoryNoteComputed<T>> = Vec::new();
        let mut k: usize = 0;
        while k < self.notes.len()
            invariant
                k <= self.notes.len(),
                s == self@,
                s == self.notes@.map_values(|r: NoteRecord<T>| r@),
                store_wf(s),
                all_readable::<T>(s),
                f == (|r: RecordView<T::V>| record_matches::<T>(s, sr@, r)),
                g == (|r: RecordView<T::V>| computed_of::<T>(s, current_of(r))),
                computed_views(found@) == s.take(k as int).filter(f).map_values(g),
            decreases self.notes.len() - k,
        {
            proof {
                lemma_filter_step(s, f, g, k as int);
                assert(s[k as int] == self.notes@[k as int]@);
                assert(record_wf(s[k as int], k as nat));
                lemma_note_index(s, k as int);
            }
            if let Some(c) = self.notes[k].current {
                assert(s[k as int].revisions[c as int] == self.notes@[k as int].revisions@[c as int]@);
                let n = self.notes[k].revisions[c].duplicate();
                match self.compute_stored_note(n) {
                    Err(e) => {
                        assert(false);
                    },
                    Ok(computed) => {
                        if note_matches_request(sr, &computed) {
                            let ghost before = found@;
                            found.push(computed);
                            proof {
                                assert(computed_views(found@) =~= computed_views(before).push(g(s[k as int])));
                            }
                        }
                    },
                }
            }
            k += 1;
        }
        proof {
            assert(s.take(self.notes.len() as int) =~= s);
        }
        let ghost fv = computed_views(found@);
        assert(fv == found_in::<T>(s, s, sr@));
        let len = found.len();
        let sort = sr.sort_by_created_at();
        let mut keys: Vec<i128> = Vec::new();
        if sort {
            let mut j: usize = 0;
            while j < len
                invariant
                    j <= len,
                    len == found.len(),
                    fv == computed_views(found@),
                    keys@ == created_keys(fv).take(j as int),
                decreases len - j,
            {
                keys.push(found[j].metadata.created_at);
                assert(keys@ =~= created_keys(fv).take(j + 1));
                j += 1;
            }
            assert(keys@ =~= created_keys(fv));
        }
        let idx = key_order(&keys);
        let ghost order = positions(idx@);
        let ghost ordered = if sort {
            order.reverse().map_values(|i: int| fv[i])
        } else {
            fv
        };
        let m: usize = match sr.limit {
            Some(l) => if (l as i128) < (len as i128) {
                l as usize
            } else {
                len
            },
            None => len,
        };
        let mut out: Vec<InMemoryNoteComputed<T>> = Vec::new();
        let mut t: usize = 0;
        while t < m
            invariant
                t <= m,
                m <= len,
                len == found.len(),
                fv == computed_views(found@),
                order == positions(idx@),
                sort ==> order.len() == len && is_key_order(created_keys(fv), order),
                ordered == (if sort {
                    order.reverse().map_values(|i: int| fv[i])
                } else {
                    fv
                }),
                computed_views(out@) == ordered.take(t as int),
            decreases m - t,
        {
            let pos = if sort {
                idx[len - 1 - t]
            } else {
                t
            };
            proof {
                if sort {
                    assert(order.contains(order[len - 1 - t]));
                }
            }
            let item = found[pos].duplicate();
            let ghost before = out@;
            out.push(item);
            proof {
                assert(computed_views(out@) =~= computed_views(before).push(item@));
                assert(ordered.take(t + 1) =~= ordered.take(t as int).push(ordered[t as int]));
            }
            t += 1;
        }
        proof {
            assert(ordered.len() == len);
            assert(limited(ordered, sr@.limit) =~= ordered.take(m as int));
            if sort {
                assert(is_key_order(created_keys(fv), order));
            }
        }
        Ok(out)
    }

    /// The tags of the current notes, each once.
    pub fn tags(&self) -> (r: Result<Vec<String>, NoteStoreError>)
        requires
            self.wf(),
        ensures
            r matches Ok(v) && texts_of(v@).no_duplicates() && forall|t: Seq<char>|
                #[trigger] texts_of(v@).contains(t) <==> tagged(current_notes(self@), t),
    {
        let notes = self.get_all_current_notes();
        let ghost ns = notes@.map_values(|n: InMemoryNoteStored<T>| n@);
        let mut tags: Vec<String> = Vec::new();
        let mut k: usize = 0;
        while k < notes.len()
            invariant
                k <= notes.len(),
                ns == notes@.map_values(|n: InMemoryNoteStored<T>| n@),
                texts_of(tags@).no_duplicates(),
                forall|t: Seq<char>| #[trigger] texts_of(tags@).contains(t) <==> tagged(ns.take(k as int), t),
            decreases notes.len() - k,
        {
            let note = &notes[k];
            assert(ns[k as int] == note@);
            let mut j: usize = 0;
            while j < note.metadata.tags.len()
                invariant
                    j <= note.metadata.tags.len(),
                    k < notes.len(),
                    ns == notes@.map_values(|n: InMemoryNoteStored<T>| n@),
                    ns[k as int] == note@,
                    texts_of(tags@).no_duplicates(),
                    forall|t: Seq<char>| #[trigger] texts_of(tags@).contains(t) <==> (tagged(ns.take(k as int), t)
                        || note@.metadata.tags.take(j as int).contains(t)),
                decreases note.metadata.tags.len() - j,
            {
                let ghost before = texts_of(tags@);
                let tag = &note.metadata.tags[j];
                assert(note@.metadata.tags[j as int] == tag@);
                assert(note@.metadata.tags.take(j + 1) =~= note@.metadata.tags.take(j as int).push(tag@));
                if !contains_text(&tags, tag) {
                    tags.push(tag.clone());
                    proof {
                        assert(texts_of(tags@) =~= before.push(tag@));
                        assert forall|a: int, b: int| 0 <= a < b < texts_of(tags@).len() implies texts_of(tags@)[a] != texts_of(tags@)[b] by {
                            if b == before.len() {
                                assert(before.contains(before[a]));
                            }
                        }
                        assert forall|t: Seq<char>| #[trigger] texts_of(tags@).contains(t) <==> (before.contains(t) || t == tag@) by {
                            if t == tag@ {
                                assert(texts_of(tags@)[before.len() as int] == t);
                            }
                            if before.contains(t) {
                                let a = choose|a: int| 0 <= a < before.len() && before[a] == t;
                                assert(texts_of(tags@)[a] == t);
                            }
                            if texts_of(tags@).contains(t) {
                                let a = choose|a: int| 0 <= a < texts_of(tags@).len() && texts_of(tags@)[a] == t;
                                if a < before.len() {
                                    assert(before[a] == t);
                                }
                            }
                        }
                    }
                }
                proof {
                    let tj1 = note@.metadata.tags.take(j + 1);
                    let tj = note@.metadata.tags.take(j as int);
                    assert forall|t: Seq<char>| tj1.contains(t) <==> (tj.contains(t) || t == tag@) by {
                        if tj1.contains(t) {
                            let a = choose|a: int| 0 <= a < tj1.len() && tj1[a] == t;
                            if a < j {
                                assert(tj[a] == t);
                            }
                        }
                        if tj.contains(t) {
                            let a = choose|a: int| 0 <= a < tj.len() && tj[a] == t;
                            assert(tj1[a] == t);
                        }
                        if t == tag@ {
                            assert(tj1[j as int] == t);
                        }
                    }
                }
                j += 1;
            }
            proof {
                assert(note@.metadata.tags.take(j as int) =~= note@.metadata.tags);
                assert forall|t: Seq<char>| tagged(ns.take(k + 1), t) <==> (tagged(ns.take(k as int), t)
                    || note@.metadata.tags.contains(t)) by {
                    if tagged(ns.take(k + 1), t) {
                        let i = choose|i: int| 0 <= i < ns.take(k + 1).len() && (#[trigger] ns.take(k + 1)[i]).metadata.tags.contains(t);
                        if i < k {
                            assert(ns.take(k as int)[i] == ns[i]);
                        }
                    }
                    if tagged(ns.take(k as int), t) {
                        let i = choose|i: int| 0 <= i < ns.take(k as int).len() && (#[trigger] ns.take(k as int)[i]).metadata.tags.contains(t);
                        assert(ns.take(k + 1)[i] == ns[i]);
                    }
                    if note@.metadata.tags.contains(t) {
                        assert(ns.take(k + 1)[k as int] == ns[k as int]);
                    }
                }
            }
            k += 1;
        }
        proof {
            assert(ns.take(notes.len() as int) =~= ns);
        }
        Ok(tags)
    }

    /// Whether the referents of every live note can be read.
    pub fn referents_readable(&self) -> (r: bool)
        requires
            self.wf(),
        ensures
            r == all_readable::<T>(self@),
    {
        let ghost s = self@;
        let mut k: usize = 0;
        while k < self.notes.len()
            invariant
                k <= self.notes.len(),
                s == self@,
                s == self.notes@.map_values(|r: NoteRecord<T>| r@),
                store_wf(s),
                forall|j: int| 0 <= j < k && is_live(#[trigger] s[j]) ==> T::readable(current_of(s[j]).inner),
            decreases self.notes.len() - k,
        {
            proof {
                assert(s[k as int] == self.notes@[k as int]@);
                assert(record_wf(s[k as int], k as nat));
            }
            if let Some(c) = self.notes[k].current {
                assert(s[k as int].revisions[c as int] == self.notes@[k as int].revisions@[c as int]@);
                if self.notes[k].revisions[c].note_inner.get_referents().is_err() {
                    return false;
                }
            }
            k += 1;
        }
        true
    }

    /// A store of the given records, when they are well formed: the `k`-th
    /// record is the note named `note-k`, its `j`-th revision is named
    /// `revision-j` and belongs to it, metadata is of the current schema,
    /// tags and branches are each listed once, and a deleted note has no
    /// branches while a live note's current revision has all the branches any
    /// of its revisions had.
    pub fn from_records(records: Vec<NoteRecord<T>>) -> (r: Option<Self>)
        ensures
            r is Some <==> store_wf(records@.map_values(|x: NoteRecord<T>| x@)),
            r matches Some(st) ==> st.wf() && st@ == records@.map_values(|x: NoteRecord<T>| x@),
    {
        let ghost s = records@.map_values(|x: NoteRecord<T>| x@);
        let mut k: usize = 0;
        while k < records.len()
            invariant
                k <= records.len(),
                s == records@.map_values(|x: NoteRecord<T>| x@),
                forall|j: int| 0 <= j < k ==> record_wf(#[trigger] s[j], j as nat),
            decreases records.len() - k,
        {
            assert(s[k as int] == records@[k as int]@);
            if !record_ok(&records[k], k) {
                return None;
            }
            k += 1;
        }
        let st = InMemoryStoreInner { notes: records };
        Some(st)
    }
}

impl InMemoryStoreInner<MarkdownNote> {
    /// Adds a sequence of three Markdown notes, to try a server out; the
    /// first carries the title, the second two tags.
    pub fn populate_test_data(&mut self) -> (r: Vec<NoteLocator>)
        requires
            old(self).wf(),
        ensures
            final(self).wf(),
            final(self)@.len() == old(self)@.len() + 3,
            r@.len() == 3,
            forall|i: int| 0 <= i < 3 ==> (#[trigger] r@[i])@.id == note_id_text((old(self)@.len() + i) as nat),
    {
        let ghost s0 = self@;
        let t1 = "A big sequence!".to_owned();
        let i1 = MarkdownNote::new("# Sequence1\nbody1".to_owned());
        let m1 = NoteMetadataEditable::unchanged();
        let ghost (t1v, i1v, m1v) = (t1@, i1@, m1@);
        let loc1 = match self.new_note(t1, i1, m1) {
            Ok(l) => l,
            Err(_) => {
                assert(false);
                return Vec::new();
            },
        };
        let ghost s1 = self@;
        let ghost id1 = note_id_text(s0.len());
        proof {
            let now1 = choose|now: i128| s1 == with_new_note(s0, t1v, i1v, m1v, now);
            crate::notestore::laws::law_new_note_reads_back(s0, t1v, i1v, m1v, now1);
            assert(s1.len() == s0.len() + 1);
        }
        let t2 = "".to_owned();
        let i2 = MarkdownNote::new(
            "## Code testing\n`inline code`\n```python\na = [1, 2, 3, 4]\nfor n in a:\n    print(n)\n```\n".to_owned(),
        );
        let mut tags: Vec<String> = Vec::new();
        tags.push("tag1".to_owned());
        tags.push("tag2".to_owned());
        let m2 = NoteMetadataEditable { tags: Some(tags), custom_metadata: None };
        let ghost (t2v, i2v, m2v) = (t2@, i2@, m2@);
        let loc2 = match self.append_note(loc1.get_id(), t2, i2, m2) {
            Ok(l) => l,
            Err(_) => {
                assert(false);
                return Vec::new();
            },
        };
        let ghost s2 = self@;
        let ghost id2 = note_id_text(s1.len());
        assert(loc2@.id == id2);
        proof {
            let now2 = choose|now: i128|
                match #[trigger] append_outcome(s1, id1, t2v, i2v, m2v, now) {
                    Err(err) => false,
                    Ok(after) => self@ == after,
                };
            let s1b = with_new_note(s1, t2v, i2v, m2v, now2);
            crate::notestore::laws::law_new_note_reads_back(s1, t2v, i2v, m2v, now2);
            crate::notestore::laws::lemma_with_new_note_wf(s1, t2v, i2v, m2v, now2);
            let k1 = note_index(s1, id1);
            lemma_note_index(s1, k1);
            assert(s1b[k1] == s1[k1]);
            lemma_note_index(s1b, k1);
            lemma_live_update(s1b, id1);
            crate::notestore::laws::law_update_reads_back(s1b, id1, None, EditView::SetNext(Some(id2)), now2);
            assert(s2 == updated_store(s1b, id1, None, EditView::SetNext(Some(id2)), now2));
            assert(id1 != id2) by {
                if id1 == id2 {
                    lemma_note_id_injective(s0.len(), s1.len());
                }
            }
            assert(stored_outcome(s2, id2, None) == stored_outcome(s1b, id2, None));
            assert(s2.len() == s1.len() + 1);
        }
        let t3 = "".to_owned();
        let i3 = MarkdownNote::new(
            "## Math testing\n```math\n\\frac{1}{2}\n```\n\nInline math `${\\frac{1}{2}}$`\n".to_owned(),
        );
        let m3 = NoteMetadataEditable::unchanged();
        let ghost (t3v, i3v, m3v) = (t3@, i3@, m3@);
        let loc3 = match self.append_note(loc2.get_id(), t3, i3, m3) {
            Ok(l) => l,
            Err(_) => {
                assert(false);
                return Vec::new();
            },
        };
        proof {
            let now3 = choose|now: i128|
                match #[trigger] append_outcome(s2, id2, t3v, i3v, m3v, now) {
                    Err(err) => false,
                    Ok(after) => self@ == after,
                };
            let x = with_new_note(s2, t3v, i3v, m3v, now3);
            crate::notestore::laws::lemma_with_new_note_wf(s2, t3v, i3v, m3v, now3);
            assert(x == s2.push(x.last()));
            lemma_push_keeps(s2, x.last(), id2);
            assert(self@ == updated_store(x, id2, None, EditView::SetNext(Some(note_id_text(s2.len()))), now3));
            assert(self@.len() == s2.len() + 1);
        }
        let mut r: Vec<NoteLocator> = Vec::new();
        r.push(loc1);
        r.push(loc2);
        r.push(loc3);
        r
    }
}

} // verus!
