//! An in-memory store of notes that keeps every revision of a note, and
//! keeps the children of a note in step with the parents of notes: setting a
//! note's parent adds it to the new parent's children and removes it from the
//! old parent's; deleting a note removes it from its parent's children.
//! Notes and revisions are named by random UUIDs.
use crate::clock::now_timestamp;
use crate::note::{NoteID, NoteLocator, Revision};
use crate::notetype::{contains_id, copy_ids, ids_of, insert_id};
use crate::notetype::plain::{lemma_without_distinct, without};
use crate::order::{is_key_order, key_order, positions};
use crate::tagged::{Note, NoteType};
use vstd::prelude::*;

verus! {

/// Errors of the store.
#[derive(Debug)]
pub enum InMemoryStoreError {
    /// The note doesn't exist.
    NoteNotExist(NoteID),
    /// The note is deleted; a revision is needed to resurrect it.
    NoteDeleted(NoteID),
    /// A note of this name exists already.
    NoteIDConflict(NoteID),
    /// The revision of the note doesn't exist.
    RevisionNotExist(NoteID, Revision),
    /// A revision of this name exists already.
    RevisionConflict(NoteID, Revision),
    /// Attempt to update a non-current revision of the note.
    UpdateOldRevision(NoteID, Revision),
    /// Attempt to delete a non-current revision of the note.
    DeleteOldRevision(NoteID, Revision),
    /// The second note is not a child of the first.
    NotAChild(NoteID, NoteID),
}

/// The view of an [`InMemoryStoreError`].
pub enum ErrorView {
    NoteNotExist(Seq<char>),
    NoteDeleted(Seq<char>),
    NoteIDConflict(Seq<char>),
    RevisionNotExist(Seq<char>, Seq<char>),
    RevisionConflict(Seq<char>, Seq<char>),
    UpdateOldRevision(Seq<char>, Seq<char>),
    DeleteOldRevision(Seq<char>, Seq<char>),
    NotAChild(Seq<char>, Seq<char>),
}

impl View for InMemoryStoreError {
    type V = ErrorView;

    open spec fn view(&self) -> ErrorView {
        match self {
            InMemoryStoreError::NoteNotExist(a) => ErrorView::NoteNotExist(a@),
            InMemoryStoreError::NoteDeleted(a) => ErrorView::NoteDeleted(a@),
            InMemoryStoreError::NoteIDConflict(a) => ErrorView::NoteIDConflict(a@),
            InMemoryStoreError::RevisionNotExist(a, b) => ErrorView::RevisionNotExist(a@, b@),
            InMemoryStoreError::RevisionConflict(a, b) => ErrorView::RevisionConflict(a@, b@),
            InMemoryStoreError::UpdateOldRevision(a, b) => ErrorView::UpdateOldRevision(a@, b@),
            InMemoryStoreError::DeleteOldRevision(a, b) => ErrorView::DeleteOldRevision(a@, b@),
            InMemoryStoreError::NotAChild(a, b) => ErrorView::NotAChild(a@, b@),
        }
    }
}

/// The view of a revision of a note.
pub struct NoteView<V> {
    pub inner: V,
    pub id: Seq<char>,
    pub revision: Seq<char>,
    pub parent: Option<Seq<char>>,
    pub children: Seq<Seq<char>>,
    pub created_at: i128,
    pub modified_at: i128,
}

/// The text of an optional identifier.
pub open spec fn opt_text(o: Option<NoteID>) -> Option<Seq<char>> {
    match o {
        Some(i) => Some(i@),
        None => None,
    }
}

/// The view of a revision.
pub open spec fn note_view<T: View>(n: Note<T>) -> NoteView<T::V> {
    NoteView {
        inner: n.note_inner@,
        id: n.id@,
        revision: n.revision@,
        parent: opt_text(n.parent),
        children: ids_of(n.children@),
        created_at: n.created_at,
        modified_at: n.modified_at,
    }
}

/// All revisions of one note, and which is current (none for a deleted note).
#[derive(Debug)]
pub struct NoteHistory<T> {
    pub id: NoteID,
    pub revisions: Vec<Note<T>>,
    pub current: Option<usize>,
}

/// The view of a [`NoteHistory`].
pub struct HistoryView<V> {
    pub id: Seq<char>,
    pub revisions: Seq<NoteView<V>>,
    pub current: Option<int>,
}

/// The view of a history.
pub open spec fn history_view<T: View>(h: NoteHistory<T>) -> HistoryView<T::V> {
    HistoryView {
        id: h.id@,
        revisions: h.revisions@.map_values(|n: Note<T>| note_view(n)),
        current: match h.current {
            Some(c) => Some(c as int),
            None => None,
        },
    }
}

/// A well-formed history: at least one revision, all of the note, with
/// distinct names and children each listed once; the current one in range.
pub open spec fn history_wf<V>(h: HistoryView<V>) -> bool {
    &&& h.revisions.len() >= 1
    &&& forall|j: int| 0 <= j < h.revisions.len() ==> (#[trigger] h.revisions[j]).id == h.id
        && h.revisions[j].children.no_duplicates()
    &&& forall|a: int, b: int|
        0 <= a < b < h.revisions.len() ==> (#[trigger] h.revisions[a]).revision
            != (#[trigger] h.revisions[b]).revision
    &&& match h.current {
        Some(c) => 0 <= c < h.revisions.len(),
        None => true,
    }
}

/// A well-formed store: well-formed histories of distinct notes.
pub open spec fn store_wf<V>(s: Seq<HistoryView<V>>) -> bool {
    &&& forall|k: int| 0 <= k < s.len() ==> history_wf(#[trigger] s[k])
    &&& forall|a: int, b: int| 0 <= a < b < s.len() ==> (#[trigger] s[a]).id != (#[trigger] s[b]).id
}

/// Whether the store has the note `id`.
pub open spec fn has_note<V>(s: Seq<HistoryView<V>>, id: Seq<char>) -> bool {
    exists|k: int| 0 <= k < s.len() && (#[trigger] s[k]).id == id
}

/// The position of the note `id`.
pub open spec fn index_of<V>(s: Seq<HistoryView<V>>, id: Seq<char>) -> int {
    choose|k: int| 0 <= k < s.len() && (#[trigger] s[k]).id == id
}

/// Whether a history has the revision `name`.
pub open spec fn has_revision<V>(h: HistoryView<V>, name: Seq<char>) -> bool {
    exists|j: int| 0 <= j < h.revisions.len() && (#[trigger] h.revisions[j]).revision == name
}

/// The position of the revision `name` in a history.
pub open spec fn revision_at<V>(h: HistoryView<V>, name: Seq<char>) -> int {
    choose|j: int| 0 <= j < h.revisions.len() && (#[trigger] h.revisions[j]).revision == name
}

/// Whether the note `id` has a revision named `name`.
pub open spec fn own_revision<V>(s: Seq<HistoryView<V>>, id: Seq<char>, name: Seq<char>) -> bool {
    has_note(s, id) && has_revision(s[index_of(s, id)], name)
}

/// The name of the current revision of note `id`.
pub open spec fn current_outcome<V>(s: Seq<HistoryView<V>>, id: Seq<char>) -> Result<Seq<char>, ErrorView> {
    if !has_note(s, id) {
        Err(ErrorView::NoteNotExist(id))
    } else {
        let h = s[index_of(s, id)];
        match h.current {
            Some(c) => Ok(h.revisions[c].revision),
            None => Err(ErrorView::NoteDeleted(id)),
        }
    }
}

/// Whether note `id` is deleted.
pub open spec fn deleted_outcome<V>(s: Seq<HistoryView<V>>, id: Seq<char>) -> Result<bool, ErrorView> {
    if !has_note(s, id) {
        Err(ErrorView::NoteNotExist(id))
    } else {
        Ok(s[index_of(s, id)].current is None)
    }
}

/// Whether a locator points at the current revision of its note; a
/// locator without a revision does unless the note is deleted.
pub open spec fn is_current_outcome<V>(s: Seq<HistoryView<V>>, id: Seq<char>, rev: Option<Seq<char>>) -> Result<bool, ErrorView> {
    match rev {
        Some(r) => match current_outcome(s, id) {
            Err(e) => Err(e),
            Ok(c) => Ok(c == r),
        },
        None => match deleted_outcome(s, id) {
            Err(e) => Err(e),
            Ok(d) => Ok(!d),
        },
    }
}

/// The revision a locator points at.
pub open spec fn note_outcome<V>(s: Seq<HistoryView<V>>, id: Seq<char>, rev: Option<Seq<char>>) -> Result<NoteView<V>, ErrorView> {
    let name = match rev {
        Some(r) => Ok(r),
        None => current_outcome(s, id),
    };
    match name {
        Err(e) => Err(e),
        Ok(r) => if !has_note(s, id) {
            Err(ErrorView::NoteNotExist(id))
        } else {
            let h = s[index_of(s, id)];
            if !has_revision(h, r) {
                Err(ErrorView::RevisionNotExist(id, r))
            } else {
                Ok(h.revisions[revision_at(h, r)])
            }
        },
    }
}

/// A change to a revision.
pub enum TaggedEdit<T> {
    /// Replace the content.
    Content(T),
    /// Add a child.
    AddChild(NoteID),
    /// Remove a child.
    RemoveChild(NoteID),
    /// Set the parent.
    SetParent(Option<NoteID>),
}

/// The view of a [`TaggedEdit`].
pub enum EditView<V> {
    Content(V),
    AddChild(Seq<char>),
    RemoveChild(Seq<char>),
    SetParent(Option<Seq<char>>),
}

impl<T: View> View for TaggedEdit<T> {
    type V = EditView<T::V>;

    open spec fn view(&self) -> EditView<T::V> {
        match self {
            TaggedEdit::Content(t) => EditView::Content(t@),
            TaggedEdit::AddChild(c) => EditView::AddChild(c@),
            TaggedEdit::RemoveChild(c) => EditView::RemoveChild(c@),
            TaggedEdit::SetParent(p) => EditView::SetParent(opt_text(*p)),
        }
    }
}

/// The revision an edit makes of `n`, updating through a locator of note `id`.
pub open spec fn edited<V>(n: NoteView<V>, e: EditView<V>, id: Seq<char>) -> Result<NoteView<V>, ErrorView> {
    match e {
        EditView::Content(v) => Ok(NoteView { inner: v, ..n }),
        EditView::AddChild(c) => Ok(
            NoteView {
                children: if n.children.contains(c) {
                    n.children
                } else {
                    n.children.push(c)
                },
                ..n
            },
        ),
        EditView::RemoveChild(c) => if n.children.contains(c) {
            Ok(NoteView { children: without(n.children, c), ..n })
        } else {
            Err(ErrorView::NotAChild(id, c))
        },
        EditView::SetParent(p) => Ok(NoteView { parent: p, ..n }),
    }
}

/// The outcome of one update of note `id` through a locator, without
/// propagating a change of parent: the new revision, named `name` and
/// modified at `now`, becomes current. A deleted note is resurrected from
/// the revision the locator points at.
pub open spec fn step_outcome<V>(s: Seq<HistoryView<V>>, id: Seq<char>, rev: Option<Seq<char>>, e: EditView<V>, name: Seq<char>, now: i128) -> Result<Seq<HistoryView<V>>, ErrorView> {
    match deleted_outcome(s, id) {
        Err(err) => Err(err),
        Ok(deleted) => {
            let current = if deleted {
                Ok(true)
            } else {
                is_current_outcome(s, id, rev)
            };
            match current {
                Err(err) => Err(err),
                Ok(false) => Err(ErrorView::UpdateOldRevision(id, rev->0)),
                Ok(true) => match note_outcome(s, id, rev) {
                    Err(err) => Err(err),
                    Ok(old) => if own_revision(s, id, name) {
                        Err(ErrorView::RevisionConflict(id, name))
                    } else {
                        match edited(old, e, id) {
                            Err(err) => Err(err),
                            Ok(n) => {
                                let k = index_of(s, id);
                                let h = s[k];
                                let nr = NoteView { revision: name, modified_at: now, created_at: old.created_at, ..n };
                                Ok(s.update(k, HistoryView {
                                    id: h.id,
                                    revisions: h.revisions.push(nr),
                                    current: Some(h.revisions.len() as int),
                                }))
                            },
                        }
                    },
                },
            }
        },
    }
}

/// The times at which revisions were last modified.
pub open spec fn modified_keys<V>(revs: Seq<NoteView<V>>) -> Seq<i128> {
    revs.map_values(|n: NoteView<V>| n.modified_at)
}

/// The parent a revision has after an edit.
pub open spec fn parent_after<V>(old: NoteView<V>, e: EditView<V>) -> Option<Seq<char>> {
    match e {
        EditView::SetParent(p) => p,
        _ => old.parent,
    }
}

/// The store after the first update of note `id`, and after it leaves the
/// children of its old parent (named `n2`), when its parent changes.
pub open spec fn left_old_parent<V>(s: Seq<HistoryView<V>>, id: Seq<char>, rev: Option<Seq<char>>, e: EditView<V>, n1: Seq<char>, n2: Seq<char>, now: i128) -> Seq<HistoryView<V>> {
    let s1 = step_outcome(s, id, rev, e, n1, now)->Ok_0;
    let old = note_outcome(s, id, rev)->Ok_0;
    match old.parent {
        Some(p) => step_outcome(s1, p, None, EditView::RemoveChild(id), n2, now)->Ok_0,
        None => s1,
    }
}

/// Whether an update that changes a note's parent can update both parents:
/// the old parent is a live note that has the note as a child, and the new
/// parent is a live note.
pub open spec fn propagates<V>(s: Seq<HistoryView<V>>, id: Seq<char>, rev: Option<Seq<char>>, e: EditView<V>, n1: Seq<char>, n2: Seq<char>, n3: Seq<char>, now: i128) -> bool {
    match step_outcome(s, id, rev, e, n1, now) {
        Err(_) => true,
        Ok(s1) => {
            let old = note_outcome(s, id, rev)->Ok_0;
            let np = parent_after(old, e);
            np != old.parent ==> {
                &&& (old.parent is Some ==> step_outcome(s1, old.parent->0, None, EditView::RemoveChild(id), n2, now) is Ok)
                &&& (np is Some ==> step_outcome(left_old_parent(s, id, rev, e, n1, n2, now), np->0, None, EditView::AddChild(id), n3, now) is Ok)
            }
        },
    }
}

/// The outcome of updating note `id` through a locator: the new revision,
/// named `n1` and modified at `now`, becomes current; when its parent
/// changes, the old parent loses it as a child (its new revision named `n2`)
/// and the new parent gains it (`n3`).
pub open spec fn update_outcome<V>(s: Seq<HistoryView<V>>, id: Seq<char>, rev: Option<Seq<char>>, e: EditView<V>, n1: Seq<char>, n2: Seq<char>, n3: Seq<char>, now: i128) -> Result<Seq<HistoryView<V>>, ErrorView> {
    match step_outcome(s, id, rev, e, n1, now) {
        Err(err) => Err(err),
        Ok(s1) => {
            let old = note_outcome(s, id, rev)->Ok_0;
            let np = parent_after(old, e);
            if np == old.parent {
                Ok(s1)
            } else {
                let s2 = left_old_parent(s, id, rev, e, n1, n2, now);
                match np {
                    Some(q) => Ok(step_outcome(s2, q, None, EditView::AddChild(id), n3, now)->Ok_0),
                    None => Ok(s2),
                }
            }
        },
    }
}

/// The outcome of deleting the revision a locator points at, which must be
/// current; the note leaves the children of its parent (named `name`).
pub open spec fn delete_outcome<V>(s: Seq<HistoryView<V>>, id: Seq<char>, rev: Option<Seq<char>>, name: Seq<char>, now: i128) -> Result<Seq<HistoryView<V>>, ErrorView> {
    match is_current_outcome(s, id, rev) {
        Err(err) => Err(err),
        Ok(false) => Err(ErrorView::DeleteOldRevision(id, rev->0)),
        Ok(true) => {
            let n = note_outcome(s, id, rev)->Ok_0;
            let k = index_of(s, id);
            let s1 = s.update(k, HistoryView { current: None, ..s[k] });
            match n.parent {
                Some(p) => Ok(step_outcome(s1, p, None, EditView::RemoveChild(id), name, now)->Ok_0),
                None => Ok(s1),
            }
        },
    }
}

/// Whether a deletion can take the note out of its parent's children: the
/// parent is a live note that has it as a child. A locator without a
/// revision must name a note that is not deleted.
pub open spec fn deletes<V>(s: Seq<HistoryView<V>>, id: Seq<char>, rev: Option<Seq<char>>, name: Seq<char>, now: i128) -> bool {
    &&& (rev is None ==> !(deleted_outcome(s, id) == Ok::<bool, ErrorView>(true)))
    &&& match is_current_outcome(s, id, rev) {
        Ok(true) => {
            let n = note_outcome(s, id, rev)->Ok_0;
            let k = index_of(s, id);
            let s1 = s.update(k, HistoryView { current: None, ..s[k] });
            n.parent is Some ==> step_outcome(s1, n.parent->0, None, EditView::RemoveChild(id), name, now) is Ok
        },
        _ => true,
    }
}

/// The parents an update of a note through a locator writes to, where the
/// locator points at a revision: its parent and its new parent.
pub open spec fn update_parents<V>(s: Seq<HistoryView<V>>, id: Seq<char>, rev: Option<Seq<char>>, e: EditView<V>) -> Seq<Seq<char>> {
    match note_outcome(s, id, rev) {
        Ok(old) => opt_seq(old.parent) + opt_seq(parent_after(old, e)),
        Err(_) => Seq::empty(),
    }
}

/// The identifier of an optional note, as a sequence of at most one.
pub open spec fn opt_seq(o: Option<Seq<char>>) -> Seq<Seq<char>> {
    match o {
        Some(x) => seq![x],
        None => Seq::empty(),
    }
}

/// Whether none of the notes `targets` has a revision named `name`.
pub open spec fn fresh_for<V>(s: Seq<HistoryView<V>>, targets: Seq<Seq<char>>, name: Seq<char>) -> bool {
    forall|i: int| 0 <= i < targets.len() ==> !own_revision(s, #[trigger] targets[i], name)
}

/// Three revision names for an update, distinct from each other, that none
/// of the notes the update writes to has.
pub open spec fn fresh_names<V>(s: Seq<HistoryView<V>>, id: Seq<char>, rev: Option<Seq<char>>, e: EditView<V>, n1: Seq<char>, n2: Seq<char>, n3: Seq<char>) -> bool {
    let t = update_parents(s, id, rev, e);
    &&& !own_revision(s, id, n1) && !own_revision(s, id, n2) && !own_revision(s, id, n3)
    &&& fresh_for(s, t, n1) && fresh_for(s, t, n2) && fresh_for(s, t, n3)
    &&& n1 != n2 && n1 != n3 && n2 != n3
}

/// Whether the revision name that a deletion gives the parent of the
/// deleted note is one the parent does not have.
pub open spec fn delete_name_fresh<V>(s: Seq<HistoryView<V>>, id: Seq<char>, rev: Option<Seq<char>>, name: Seq<char>) -> bool {
    match note_outcome(s, id, rev) {
        Ok(n) => fresh_for(s, opt_seq(n.parent), name),
        Err(_) => true,
    }
}

/// The store after a note named `id` is created at `now`, with its first
/// revision named `rev`, no parent and no children.
pub open spec fn with_note<V>(s: Seq<HistoryView<V>>, inner: V, id: Seq<char>, rev: Seq<char>, now: i128) -> Seq<HistoryView<V>> {
    s.push(
        HistoryView {
            id,
            revisions: seq![NoteView { inner, id, revision: rev, parent: None, children: Seq::empty(), created_at: now, modified_at: now }],
            current: Some(0),
        },
    )
}

/// `v` without the identifier `x`.
fn remove_id(v: &Vec<NoteID>, x: &NoteID) -> (r: Vec<NoteID>)
    ensures
        ids_of(r@) == without(ids_of(v@), x@),
{
    let ghost s = ids_of(v@);
    let mut kept: Vec<NoteID> = Vec::new();
    let mut i: usize = 0;
    while i < v.len()
        invariant
            i <= v.len(),
            s == ids_of(v@),
            ids_of(kept@) == without(s.take(i as int), x@),
        decreases v.len() - i,
    {
        proof {
            reveal_with_fuel(Seq::<_>::filter, 1);
            assert(s.take(i + 1).drop_last() =~= s.take(i as int));
        }
        if !v[i].same(x) {
            let c = v[i].clone();
            proof {
                assert(ids_of(kept@.push(c)) =~= ids_of(kept@).push(c@));
            }
            kept.push(c);
        }
        i += 1;
    }
    assert(s.take(v.len() as int) =~= s);
    kept
}

/// Applies an edit to a revision, updating through a locator of note `id`.
fn apply_edit<T: NoteType>(n: Note<T>, e: TaggedEdit<T>, id: &NoteID) -> (r: Result<Note<T>, InMemoryStoreError>)
    ensures
        match edited(note_view(n), e@, id@) {
            Ok(m) => r matches Ok(x) && note_view(x) == m,
            Err(err) => r matches Err(x) && x@ == err,
        },
{
    let mut n = n;
    match e {
        TaggedEdit::Content(t) => {
            n.note_inner = t;
            Ok(n)
        },
        TaggedEdit::AddChild(c) => {
            insert_id(&mut n.children, c);
            Ok(n)
        },
        TaggedEdit::RemoveChild(c) => {
            if contains_id(&n.children, &c) {
                n.children = remove_id(&n.children, &c);
                Ok(n)
            } else {
                Err(InMemoryStoreError::NotAChild(id.clone(), c))
            }
        },
        TaggedEdit::SetParent(p) => {
            n.parent = p;
            Ok(n)
        },
    }
}

/// An edit keeps the children of a revision free of repetitions.
proof fn lemma_edited_distinct<V>(n: NoteView<V>, e: EditView<V>, id: Seq<char>)
    requires
        n.children.no_duplicates(),
        edited(n, e, id) is Ok,
    ensures
        edited(n, e, id)->Ok_0.children.no_duplicates(),
        edited(n, e, id)->Ok_0.id == n.id,
        edited(n, e, id)->Ok_0.created_at == n.created_at,
{
    match e {
        EditView::AddChild(c) => {
            if !n.children.contains(c) {
                let t = n.children.push(c);
                assert forall|a: int, b: int| 0 <= a < b < t.len() implies t[a] != t[b] by {
                    if b == n.children.len() {
                        assert(n.children.contains(n.children[a]));
                    }
                }
            }
        },
        EditView::RemoveChild(c) => {
            lemma_without_distinct(n.children, c);
        },
        _ => {},
    }
}

/// A random version 4 UUID, in its hyphenated form.
///
/// Trusted: `uuid::Uuid::new_v4` draws a random UUID; nothing is stated of it.
#[verifier::external_body]
fn fresh_uuid() -> String {
    uuid::Uuid::new_v4().hyphenated().to_string()
}

/// An in-memory store of notes.
///
/// This is mostly designed for development use, because there is no persistence layer.
pub struct InMemoryStore<T> {
    notes: Vec<NoteHistory<T>>,
}

impl<T: NoteType> View for InMemoryStore<T> {
    type V = Seq<HistoryView<T::V>>;

    closed spec fn view(&self) -> Seq<HistoryView<T::V>> {
        self.notes@.map_values(|h: NoteHistory<T>| history_view(h))
    }
}

/// A copy of an optional identifier.
fn copy_opt(o: &Option<NoteID>) -> (r: Option<NoteID>)
    ensures
        opt_text(r) == opt_text(*o),
{
    match o {
        Some(i) => Some(i.clone()),
        None => None,
    }
}

/// A copy of a revision.
fn copy_note<T: NoteType>(n: &Note<T>) -> (r: Note<T>)
    ensures
        note_view(r) == note_view(*n),
{
    Note {
        note_inner: n.note_inner.duplicate(),
        id: n.id.clone(),
        revision: n.revision.clone(),
        parent: copy_opt(&n.parent),
        children: copy_ids(&n.children),
        created_at: n.created_at,
        modified_at: n.modified_at,
    }
}

/// In a well-formed store, the position of a note's name is that note's position.
proof fn lemma_index<V>(s: Seq<HistoryView<V>>, k: int)
    requires
        store_wf(s),
        0 <= k < s.len(),
    ensures
        has_note(s, s[k].id),
        index_of(s, s[k].id) == k,
{
    let i = index_of(s, s[k].id);
    if i != k {
        if i < k {
            assert(s[i].id != s[k].id);
        } else {
            assert(s[k].id != s[i].id);
        }
    }
}

/// In a well-formed history, the position of a revision's name is that revision's position.
proof fn lemma_revision<V>(h: HistoryView<V>, j: int)
    requires
        history_wf(h),
        0 <= j < h.revisions.len(),
    ensures
        has_revision(h, h.revisions[j].revision),
        revision_at(h, h.revisions[j].revision) == j,
{
    let i = revision_at(h, h.revisions[j].revision);
    if i != j {
        if i < j {
            assert(h.revisions[i].revision != h.revisions[j].revision);
        } else {
            assert(h.revisions[j].revision != h.revisions[i].revision);
        }
    }
}

impl<T: NoteType> InMemoryStore<T> {
    /// The store is well formed.
    pub open spec fn wf(&self) -> bool {
        store_wf(self@)
    }

    /// An empty store.
    pub fn new() -> (r: Self)
        ensures
            r.wf(),
            r@ == Seq::<HistoryView<T::V>>::empty(),
    {
        let r = InMemoryStore { notes: Vec::new() };
        assert(r@ =~= Seq::<HistoryView<T::V>>::empty());
        r
    }

    /// The position of note `id`, if the store has it.
    fn find_note(&self, id: &NoteID) -> (r: Option<usize>)
        requires
            self.wf(),
        ensures
            r is Some <==> has_note(self@, id@),
            r matches Some(k) ==> k == index_of(self@, id@) && k < self@.len(),
    {
        let mut k: usize = 0;
        while k < self.notes.len()
            invariant
                k <= self.notes.len(),
                self@ == self.notes@.map_values(|h: NoteHistory<T>| history_view(h)),
                store_wf(self@),
                forall|j: int| 0 <= j < k ==> self@[j].id != id@,
            decreases self.notes.len() - k,
        {
            if self.notes[k].id.same(id) {
                proof {
                    assert(self@[k as int].id == id@);
                    lemma_index(self@, k as int);
                }
                return Some(k);
            }
            k += 1;
        }
        proof {
            if has_note(self@, id@) {
                let j = choose|j: int| 0 <= j < self@.len() && (#[trigger] self@[j]).id == id@;
                assert(self@[j].id != id@);
            }
        }
        None
    }

    /// The position of revision `name` in the history at `k`, if it has it.
    fn find_revision(&self, k: usize, name: &Revision) -> (r: Option<usize>)
        requires
            self.wf(),
            k < self@.len(),
        ensures
            r is Some <==> has_revision(self@[k as int], name@),
            r matches Some(j) ==> j == revision_at(self@[k as int], name@) && j < self@[k as int].revisions.len(),
    {
        let h = &self.notes[k];
        let ghost hv = self@[k as int];
        assert(hv == history_view(*h));
        assert(history_wf(hv));
        let mut j: usize = 0;
        while j < h.revisions.len()
            invariant
                j <= h.revisions.len(),
                k < self@.len(),
                hv == self@[k as int],
                hv == history_view(*h),
                history_wf(hv),
                forall|i: int| 0 <= i < j ==> hv.revisions[i].revision != name@,
            decreases h.revisions.len() - j,
        {
            assert(hv.revisions[j as int] == note_view(h.revisions@[j as int]));
            if h.revisions[j].revision.same(name) {
                proof {
                    lemma_revision(hv, j as int);
                }
                return Some(j);
            }
            j += 1;
        }
        proof {
            if has_revision(hv, name@) {
                let i = choose|i: int| 0 <= i < hv.revisions.len() && (#[trigger] hv.revisions[i]).revision == name@;
                assert(hv.revisions[i].revision != name@);
            }
        }
        None
    }

    /// Whether the note `id` has a revision named `name`.
    fn own_taken(&self, id: &NoteID, name: &Revision) -> (r: bool)
        requires
            self.wf(),
        ensures
            r == own_revision(self@, id@, name@),
    {
        match self.find_note(id) {
            None => false,
            Some(k) => self.find_revision(k, name).is_some(),
        }
    }

    /// Whether none of the notes `a` and `b`, where given, has a revision
    /// named `name`.
    fn fresh_in(&self, a: &Option<NoteID>, b: &Option<NoteID>, name: &Revision) -> (r: bool)
        requires
            self.wf(),
        ensures
            r == fresh_for(self@, opt_seq(opt_text(*a)) + opt_seq(opt_text(*b)), name@),
    {
        let ghost sa = opt_seq(opt_text(*a));
        let ghost sb = opt_seq(opt_text(*b));
        let ghost t = sa + sb;
        let ra = match a {
            Some(x) => !self.own_taken(x, name),
            None => true,
        };
        let rb = match b {
            Some(x) => !self.own_taken(x, name),
            None => true,
        };
        proof {
            if ra && rb {
                assert forall|i: int| 0 <= i < t.len() implies !own_revision(self@, #[trigger] t[i], name@) by {
                    if i < sa.len() {
                        assert(t[i] == sa[i]);
                        match a {
                            Some(x) => assert(sa[i] == x@),
                            None => {},
                        }
                    } else {
                        assert(t[i] == sb[i - sa.len()]);
                        match b {
                            Some(x) => assert(sb[i - sa.len()] == x@),
                            None => {},
                        }
                    }
                }
            } else if !ra {
                match a {
                    Some(x) => assert(t[0] == x@),
                    None => {},
                }
            } else {
                match b {
                    Some(x) => assert(t[sa.len() as int] == x@),
                    None => {},
                }
            }
        }
        ra && rb
    }

    /// The current revision of the note a locator names.
    pub fn get_current_revision(&self, loc: &NoteLocator) -> (r: Result<Revision, InMemoryStoreError>)
        requires
            self.wf(),
        ensures
            match current_outcome(self@, loc@.id) {
                Ok(name) => r matches Ok(x) && x@ == name,
                Err(e) => r matches Err(x) && x@ == e,
            },
    {
        let id = loc.get_id();
        match self.find_note(id) {
            None => Err(InMemoryStoreError::NoteNotExist(id.clone())),
            Some(k) => {
                let ghost hv = self@[k as int];
                assert(hv == history_view(self.notes@[k as int]));
                assert(history_wf(hv));
                match self.notes[k].current {
                    Some(c) => {
                        assert(hv.revisions[c as int] == note_view(self.notes@[k as int].revisions@[c as int]));
                        Ok(self.notes[k].revisions[c].revision.clone())
                    },
                    None => Err(InMemoryStoreError::NoteDeleted(id.clone())),
                }
            },
        }
    }

    /// Whether the note a locator names is deleted: it has revisions but no current one.
    pub fn is_deleted(&self, loc: &NoteLocator) -> (r: Result<bool, InMemoryStoreError>)
        requires
            self.wf(),
        ensures
            match deleted_outcome(self@, loc@.id) {
                Ok(d) => r == Ok::<bool, InMemoryStoreError>(d),
                Err(e) => r matches Err(x) && x@ == e,
            },
    {
        let id = loc.get_id();
        match self.find_note(id) {
            None => Err(InMemoryStoreError::NoteNotExist(id.clone())),
            Some(k) => {
                assert(self@[k as int] == history_view(self.notes@[k as int]));
                Ok(self.notes[k].current.is_none())
            },
        }
    }

    /// Whether a locator points at the current revision of its note.
    pub fn is_current(&self, loc: &NoteLocator) -> (r: Result<bool, InMemoryStoreError>)
        requires
            self.wf(),
        ensures
            match is_current_outcome(self@, loc@.id, loc@.revision) {
                Ok(b) => r == Ok::<bool, InMemoryStoreError>(b),
                Err(e) => r matches Err(x) && x@ == e,
            },
    {
        if let Some(r) = loc.get_revision() {
            match self.get_current_revision(loc) {
                Err(e) => Err(e),
                Ok(c) => Ok(c.same(r)),
            }
        } else {
            match self.is_deleted(loc) {
                Err(e) => Err(e),
                Ok(d) => Ok(!d),
            }
        }
    }

    /// A copy of the revision a locator points at.
    pub fn get_note(&self, loc: &NoteLocator) -> (r: Result<Note<T>, InMemoryStoreError>)
        requires
            self.wf(),
        ensures
            match note_outcome(self@, loc@.id, loc@.revision) {
                Ok(n) => r matches Ok(x) && note_view(x) == n,
                Err(e) => r matches Err(x) && x@ == e,
            },
    {
        let (id, rev) = loc.unpack();
        let name = match rev {
            Some(r) => r.clone(),
            None => match self.get_current_revision(loc) {
                Err(e) => return Err(e),
                Ok(c) => c,
            },
        };
        let k = match self.find_note(id) {
            None => return Err(InMemoryStoreError::NoteNotExist(id.clone())),
            Some(k) => k,
        };
        match self.find_revision(k, &name) {
            None => Err(InMemoryStoreError::RevisionNotExist(id.clone(), name)),
            Some(j) => {
                assert(self@[k as int] == history_view(self.notes@[k as int]));
                assert(self@[k as int].revisions[j as int] == note_view(self.notes@[k as int].revisions@[j as int]));
                Ok(copy_note(&self.notes[k].revisions[j]))
            },
        }
    }

    /// One update of a note through a locator, without propagating a change
    /// of parent: see [`step_outcome`].
    fn step(&mut self, loc: &NoteLocator, edit: TaggedEdit<T>, name: Revision, now: i128) -> (r: Result<(), InMemoryStoreError>)
        requires
            old(self).wf(),
        ensures
            final(self).wf(),
            match step_outcome(old(self)@, loc@.id, loc@.revision, edit@, name@, now) {
                Ok(after) => r is Ok && final(self)@ == after,
                Err(e) => r matches Err(x) && x@ == e && final(self)@ == old(self)@,
            },
    {
        let ghost s = self@;
        let (id, rev) = loc.unpack();
        let deleted = match self.is_deleted(loc) {
            Err(e) => return Err(e),
            Ok(d) => d,
        };
        if !deleted {
            match self.is_current(loc) {
                Err(e) => return Err(e),
                Ok(c) => {
                    if !c {
                        match rev {
                            Some(r) => return Err(InMemoryStoreError::UpdateOldRevision(id.clone(), r.clone())),
                            None => {
                                assert(false);
                                return Err(InMemoryStoreError::NoteNotExist(id.clone()));
                            },
                        }
                    }
                },
            }
        }
        let old_note = match self.get_note(loc) {
            Err(e) => return Err(e),
            Ok(n) => n,
        };
        if self.own_taken(id, &name) {
            return Err(InMemoryStoreError::RevisionConflict(id.clone(), name));
        }
        let k = match self.find_note(id) {
            Some(k) => k,
            None => {
                assert(false);
                return Err(InMemoryStoreError::NoteNotExist(id.clone()));
            },
        };
        let ghost hv = s[k as int];
        let ghost ov = note_view(old_note);
        proof {
            assert(hv == history_view(self.notes@[k as int]));
            assert(history_wf(hv));
            let j = revision_at(hv, match rev {
                Some(r) => r@,
                None => hv.revisions[hv.current->0].revision,
            });
            assert(ov == hv.revisions[j]);
        }
        let created = old_note.created_at;
        let mut n = match apply_edit(old_note, edit, id) {
            Err(e) => return Err(e),
            Ok(n) => n,
        };
        proof {
            lemma_edited_distinct(ov, edit@, id@);
        }
        n.revision = name;
        n.modified_at = now;
        n.created_at = created;
        let ghost nv = note_view(n);
        let len = self.notes[k].revisions.len();
        let mut h = self.notes.remove(k);
        assert(history_view(h) == hv);
        h.revisions.push(n);
        h.current = Some(len);
        let ghost new_hv = history_view(h);
        proof {
            assert(new_hv.revisions =~= hv.revisions.push(nv));
            assert(!has_revision(hv, nv.revision)) by {
                if has_revision(hv, nv.revision) {
                    assert(own_revision(s, id@, nv.revision));
                }
            }
            assert forall|a: int, b: int|
                0 <= a < b < new_hv.revisions.len() implies (#[trigger] new_hv.revisions[a]).revision
                != (#[trigger] new_hv.revisions[b]).revision by {
                if b == hv.revisions.len() {
                    assert(new_hv.revisions[a] == hv.revisions[a]);
                }
            }
            assert(history_wf(new_hv));
        }
        self.notes.insert(k, h);
        proof {
            assert(self@ =~= s.update(k as int, new_hv));
            assert forall|i: int| 0 <= i < self@.len() implies history_wf(#[trigger] self@[i]) by {
                if i != k {
                    assert(self@[i] == s[i]);
                }
            }
            assert forall|a: int, b: int| 0 <= a < b < self@.len() implies (#[trigger] self@[a]).id != (#[trigger] self@[b]).id by {
                assert(s[a].id != s[b].id);
            }
            lemma_index(s, k as int);
        }
        Ok(())
    }

    /// Updates a note through a locator at `now`, naming the new revisions
    /// `n1`, `n2` and `n3`: see [`update_outcome`]. The locator must point at
    /// the current revision, unless the note is deleted: then the revision it
    /// points at is resurrected.
    pub fn update_note_at(&mut self, loc: &NoteLocator, edit: TaggedEdit<T>, n1: Revision, n2: Revision, n3: Revision, now: i128) -> (r: Result<NoteLocator, InMemoryStoreError>)
        requires
            old(self).wf(),
            propagates(old(self)@, loc@.id, loc@.revision, edit@, n1@, n2@, n3@, now),
        ensures
            final(self).wf(),
            match update_outcome(old(self)@, loc@.id, loc@.revision, edit@, n1@, n2@, n3@, now) {
                Ok(after) => r matches Ok(l) && l@.id == loc@.id && l@.revision == Some(n1@) && final(self)@ == after,
                Err(e) => r matches Err(x) && x@ == e && final(self)@ == old(self)@,
            },
    {
        let ghost s = self@;
        let ghost ev = edit@;
        let id = loc.get_id().clone();
        let old_parent = match self.get_note(loc) {
            Ok(n) => copy_opt(&n.parent),
            Err(_) => None,
        };
        let new_parent = match &edit {
            TaggedEdit::SetParent(p) => copy_opt(p),
            _ => copy_opt(&old_parent),
        };
        let first = n1.clone();
        match self.step(loc, edit, n1, now) {
            Err(e) => return Err(e),
            Ok(()) => {},
        }
        let changed = match (&old_parent, &new_parent) {
            (Some(a), Some(b)) => !a.same(b),
            (None, None) => false,
            _ => true,
        };
        if changed {
            if let Some(p) = old_parent {
                match self.step(&NoteLocator::Current(p), TaggedEdit::RemoveChild(id.clone()), n2, now) {
                    Err(e) => {
                        assert(false);
                        return Err(e);
                    },
                    Ok(()) => {},
                }
            }
            if let Some(q) = new_parent {
                match self.step(&NoteLocator::Current(q), TaggedEdit::AddChild(id.clone()), n3, now) {
                    Err(e) => {
                        assert(false);
                        return Err(e);
                    },
                    Ok(()) => {},
                }
            }
        }
        Ok(NoteLocator::Specific(id, first))
    }

    /// Deletes the current revision of a note at `now`; the note leaves the
    /// children of its parent, whose new revision is named `name`.
    pub fn delete_note_at(&mut self, loc: &NoteLocator, name: Revision, now: i128) -> (r: Result<(), InMemoryStoreError>)
        requires
            old(self).wf(),
            deletes(old(self)@, loc@.id, loc@.revision, name@, now),
        ensures
            final(self).wf(),
            match delete_outcome(old(self)@, loc@.id, loc@.revision, name@, now) {
                Ok(after) => r is Ok && final(self)@ == after,
                Err(e) => r matches Err(x) && x@ == e && final(self)@ == old(self)@,
            },
    {
        let ghost s = self@;
        let (id, rev) = loc.unpack();
        let current = match self.is_current(loc) {
            Err(e) => return Err(e),
            Ok(c) => c,
        };
        if !current {
            match rev {
                Some(r) => return Err(InMemoryStoreError::DeleteOldRevision(id.clone(), r.clone())),
                None => {
                    assert(false);
                    return Err(InMemoryStoreError::NoteNotExist(id.clone()));
                },
            }
        }
        let parent = match self.get_note(loc) {
            Ok(n) => copy_opt(&n.parent),
            Err(e) => {
                assert(false);
                return Err(e);
            },
        };
        let k = match self.find_note(id) {
            Some(k) => k,
            None => {
                assert(false);
                return Err(InMemoryStoreError::NoteNotExist(id.clone()));
            },
        };
        let ghost hv = s[k as int];
        let mut h = self.notes.remove(k);
        assert(history_view(h) == hv);
        h.current = None;
        let ghost new_hv = history_view(h);
        self.notes.insert(k, h);
        proof {
            assert(self@ =~= s.update(k as int, new_hv));
            assert(new_hv == HistoryView { current: None, ..hv });
            assert(history_wf(s[k as int]));
            assert forall|i: int| 0 <= i < self@.len() implies history_wf(#[trigger] self@[i]) by {
                if i != k {
                    assert(self@[i] == s[i]);
                }
            }
            assert forall|a: int, b: int| 0 <= a < b < self@.len() implies (#[trigger] self@[a]).id != (#[trigger] self@[b]).id by {
                assert(s[a].id != s[b].id);
            }
        }
        if let Some(p) = parent {
            match self.step(&NoteLocator::Current(p), TaggedEdit::RemoveChild(id.clone()), name, now) {
                Err(e) => {
                    assert(false);
                    return Err(e);
                },
                Ok(()) => {},
            }
        }
        Ok(())
    }

    /// Creates a note named `id` at `now`, its first revision named `revision`.
    pub fn new_note_at(&mut self, note_inner: T, id: NoteID, revision: Revision, now: i128) -> (r: Result<NoteLocator, InMemoryStoreError>)
        requires
            old(self).wf(),
        ensures
            final(self).wf(),
            has_note(old(self)@, id@) ==> (r matches Err(InMemoryStoreError::NoteIDConflict(x)) && x@ == id@ && final(self)@ == old(self)@),
            !has_note(old(self)@, id@) ==> (r matches Ok(l) && l@.id == id@ && l@.revision == Some(revision@)
                && final(self)@ == with_note(old(self)@, note_inner@, id@, revision@, now)),
    {
        if self.find_note(&id).is_some() {
            return Err(InMemoryStoreError::NoteIDConflict(id));
        }
        let ghost s = self@;
        let note = Note {
            note_inner,
            id: id.clone(),
            revision: revision.clone(),
            parent: None,
            children: Vec::new(),
            created_at: now,
            modified_at: now,
        };
        let ghost nv = note_view(note);
        let mut revisions: Vec<Note<T>> = Vec::new();
        revisions.push(note);
        let h = NoteHistory { id: id.clone(), revisions, current: Some(0) };
        let ghost hv = history_view(h);
        self.notes.push(h);
        proof {
            assert(ids_of(Seq::<NoteID>::empty()) =~= Seq::<Seq<char>>::empty());
            assert(hv.revisions =~= seq![nv]);
            assert(self@ =~= s.push(hv));
            assert forall|i: int| 0 <= i < self@.len() implies history_wf(#[trigger] self@[i]) by {
                if i < s.len() {
                    assert(self@[i] == s[i]);
                }
            }
            assert forall|a: int, b: int| 0 <= a < b < self@.len() implies (#[trigger] self@[a]).id != (#[trigger] self@[b]).id by {
                if b == s.len() {
                    assert(self@[a] == s[a]);
                    assert(!has_note(s, id@));
                } else {
                    assert(s[a].id != s[b].id);
                }
            }
            assert(self@ =~= with_note(s, nv.inner, id@, revision@, now));
        }
        Ok(NoteLocator::Specific(id, revision))
    }

    /// The names of all revisions of the note a locator names, in the order
    /// they were written.
    pub fn get_revisions(&self, loc: &NoteLocator) -> (r: Result<Vec<Revision>, InMemoryStoreError>)
        requires
            self.wf(),
        ensures
            !has_note(self@, loc@.id) ==> (r matches Err(InMemoryStoreError::NoteNotExist(x)) && x@ == loc@.id),
            has_note(self@, loc@.id) ==> (r matches Ok(v) && v@.map_values(|x: Revision| x@)
                == self@[index_of(self@, loc@.id)].revisions.map_values(|n: NoteView<T::V>| n.revision)),
    {
        let id = loc.get_id();
        let k = match self.find_note(id) {
            None => return Err(InMemoryStoreError::NoteNotExist(id.clone())),
            Some(k) => k,
        };
        let h = &self.notes[k];
        let ghost hv = self@[k as int];
        assert(hv == history_view(*h));
        let ghost names = hv.revisions.map_values(|n: NoteView<T::V>| n.revision);
        let mut out: Vec<Revision> = Vec::new();
        let mut j: usize = 0;
        while j < h.revisions.len()
            invariant
                j <= h.revisions.len(),
                hv == history_view(*h),
                names == hv.revisions.map_values(|n: NoteView<T::V>| n.revision),
                out@.map_values(|x: Revision| x@) == names.take(j as int),
            decreases h.revisions.len() - j,
        {
            assert(hv.revisions[j as int] == note_view(h.revisions@[j as int]));
            let c = h.revisions[j].revision.clone();
            let ghost before = out@;
            out.push(c);
            proof {
                assert(out@.map_values(|x: Revision| x@) =~= before.map_values(|x: Revision| x@).push(c@));
                assert(names.take(j + 1) =~= names.take(j as int).push(names[j as int]));
            }
            j += 1;
        }
        assert(names.take(h.revisions.len() as int) =~= names);
        Ok(out)
    }

    /// All revisions of the note a locator names, with their names, the least
    /// recently modified first; revisions modified at the same time in the
    /// order they were written.
    pub fn get_revisions_with_note(&self, loc: &NoteLocator) -> (r: Result<Vec<(Revision, Note<T>)>, InMemoryStoreError>)
        requires
            self.wf(),
        ensures
            !has_note(self@, loc@.id) ==> (r matches Err(InMemoryStoreError::NoteNotExist(x)) && x@ == loc@.id),
            has_note(self@, loc@.id) ==> (r matches Ok(v) && {
                let revs = self@[index_of(self@, loc@.id)].revisions;
                &&& forall|i: int| 0 <= i < v@.len() ==> (#[trigger] v@[i]).0@ == note_view(v@[i].1).revision
                &&& exists|idx: Seq<int>|
                    #[trigger] is_key_order(modified_keys(revs), idx)
                        && v@.map_values(|p: (Revision, Note<T>)| note_view(p.1)) == idx.map_values(|i: int| revs[i])
            }),
    {
        let id = loc.get_id();
        let k = match self.find_note(id) {
            None => return Err(InMemoryStoreError::NoteNotExist(id.clone())),
            Some(k) => k,
        };
        let h = &self.notes[k];
        let ghost hv = self@[k as int];
        let ghost revs = hv.revisions;
        assert(hv == history_view(*h));
        let ghost keysv = modified_keys(revs);
        let mut keys: Vec<i128> = Vec::new();
        let mut j: usize = 0;
        while j < h.revisions.len()
            invariant
                j <= h.revisions.len(),
                hv == history_view(*h),
                revs == hv.revisions,
                keysv == modified_keys(revs),
                keys@ == keysv.take(j as int),
            decreases h.revisions.len() - j,
        {
            assert(revs[j as int] == note_view(h.revisions@[j as int]));
            keys.push(h.revisions[j].modified_at);
            assert(keys@ =~= keysv.take(j + 1));
            j += 1;
        }
        assert(keys@ =~= keysv);
        let idx = key_order(&keys);
        let ghost order = positions(idx@);
        let mut out: Vec<(Revision, Note<T>)> = Vec::new();
        let mut t: usize = 0;
        while t < idx.len()
            invariant
                t <= idx.len(),
                idx@.len() == keys@.len(),
                keys@.len() == h.revisions.len(),
                hv == history_view(*h),
                revs == hv.revisions,
                order == positions(idx@),
                is_key_order(keysv, order),
                keysv == modified_keys(revs),
                out@.map_values(|p: (Revision, Note<T>)| note_view(p.1)) == order.take(t as int).map_values(|i: int| revs[i]),
                forall|i: int| 0 <= i < out@.len() ==> (#[trigger] out@[i]).0@ == note_view(out@[i].1).revision,
            decreases idx.len() - t,
        {
            let i = idx[t];
            proof {
                assert(order.contains(order[t as int]));
                assert(revs[i as int] == note_view(h.revisions@[i as int]));
            }
            let n = copy_note(&h.revisions[i]);
            let name = n.revision.clone();
            let ghost before = out@;
            out.push((name, n));
            proof {
                assert(out@.map_values(|p: (Revision, Note<T>)| note_view(p.1)) =~= before.map_values(|p: (Revision, Note<T>)| note_view(p.1)).push(revs[i as int]));
                assert(order.take(t + 1) =~= order.take(t as int).push(order[t as int]));
                assert(order.take(t + 1).map_values(|i: int| revs[i]) =~= order.take(t as int).map_values(|i: int| revs[i]).push(revs[order[t as int]]));
            }
            t += 1;
        }
        assert(order.take(idx.len() as int) =~= order);
        Ok(out)
    }

    /// Creates a note with random names, written now.
    pub fn new_note(&mut self, note_inner: T) -> (r: Result<NoteLocator, InMemoryStoreError>)
        requires
            old(self).wf(),
        ensures
            final(self).wf(),
            r matches Err(e) ==> e is NoteIDConflict && final(self)@ == old(self)@,
            r matches Ok(l) ==> l@.revision is Some && !has_note(old(self)@, l@.id) && exists|now: i128|
                final(self)@ == #[trigger] with_note(old(self)@, note_inner@, l@.id, l@.revision->0, now),
    {
        let id = NoteID::new(fresh_uuid());
        let revision = Revision::new(fresh_uuid());
        let now = now_timestamp();
        let ghost before = self@;
        let ghost (iv, idv, rv) = (note_inner@, id@, revision@);
        let r = self.new_note_at(note_inner, id, revision, now);
        proof {
            match &r {
                Ok(l) => {
                    assert(!has_note(before, idv));
                    assert(l@.id == idv && l@.revision == Some(rv));
                    assert(self@ == with_note(before, iv, l@.id, l@.revision->0, now));
                },
                Err(_) => {},
            }
        }
        r
    }

    /// The three revision names for an update through `loc` with `edit`, if
    /// they differ from each other and none of the notes the update writes
    /// to has them.
    pub fn names_if_fresh(&self, loc: &NoteLocator, edit: &TaggedEdit<T>, n1: Revision, n2: Revision, n3: Revision) -> (r: Option<(Revision, Revision, Revision)>)
        requires
            self.wf(),
        ensures
            r is Some <==> fresh_names(self@, loc@.id, loc@.revision, edit@, n1@, n2@, n3@),
            r matches Some(t) ==> t.0@ == n1@ && t.1@ == n2@ && t.2@ == n3@,
    {
        let (a, b) = match self.get_note(loc) {
            Ok(n) => {
                let a = copy_opt(&n.parent);
                let b = match edit {
                    TaggedEdit::SetParent(p) => copy_opt(p),
                    _ => copy_opt(&n.parent),
                };
                (a, b)
            },
            Err(_) => (None, None),
        };
        let id = loc.get_id();
        proof {
            assert(update_parents(self@, loc@.id, loc@.revision, edit@) =~= opt_seq(opt_text(a)) + opt_seq(opt_text(b)));
        }
        if !self.own_taken(id, &n1) && !self.own_taken(id, &n2) && !self.own_taken(id, &n3)
            && self.fresh_in(&a, &b, &n1) && self.fresh_in(&a, &b, &n2) && self.fresh_in(&a, &b, &n3)
            && !n1.same(&n2) && !n1.same(&n3) && !n2.same(&n3) {
            Some((n1, n2, n3))
        } else {
            None
        }
    }

    /// Draws three revision names for an update through `loc` with `edit`:
    /// distinct, and new to the notes the update writes to.
    fn fresh_names(&self, loc: &NoteLocator, edit: &TaggedEdit<T>) -> (r: Option<(Revision, Revision, Revision)>)
        requires
            self.wf(),
        ensures
            r matches Some(t) ==> fresh_names(self@, loc@.id, loc@.revision, edit@, t.0@, t.1@, t.2@),
    {
        let n1 = Revision::new(fresh_uuid());
        let n2 = Revision::new(fresh_uuid());
        let n3 = Revision::new(fresh_uuid());
        self.names_if_fresh(loc, edit, n1, n2, n3)
    }

    /// Updates a note through a locator, now, with random revision names;
    /// see [`update_outcome`]. When a drawn name is taken, nothing changes.
    pub fn update_note(&mut self, loc: &NoteLocator, edit: TaggedEdit<T>) -> (r: Result<NoteLocator, InMemoryStoreError>)
        requires
            old(self).wf(),
            forall|n1: Seq<char>, n2: Seq<char>, n3: Seq<char>, now: i128|
                fresh_names(old(self)@, loc@.id, loc@.revision, edit@, n1, n2, n3) ==> #[trigger] propagates(
                    old(self)@,
                    loc@.id,
                    loc@.revision,
                    edit@,
                    n1,
                    n2,
                    n3,
                    now,
                ),
        ensures
            final(self).wf(),
            (r matches Err(InMemoryStoreError::RevisionConflict(_, _)) && final(self)@ == old(self)@) || exists|
                n1: Seq<char>,
                n2: Seq<char>,
                n3: Seq<char>,
                now: i128,
            |
                fresh_names(old(self)@, loc@.id, loc@.revision, edit@, n1, n2, n3) && match #[trigger] update_outcome(
                    old(self)@,
                    loc@.id,
                    loc@.revision,
                    edit@,
                    n1,
                    n2,
                    n3,
                    now,
                ) {
                    Ok(after) => r matches Ok(l) && l@.id == loc@.id && l@.revision == Some(n1) && final(self)@ == after,
                    Err(e) => r matches Err(x) && x@ == e && final(self)@ == old(self)@,
                },
    {
        let (n1, n2, n3) = match self.fresh_names(loc, &edit) {
            Some(t) => t,
            None => return Err(InMemoryStoreError::RevisionConflict(loc.get_id().clone(), Revision::new(fresh_uuid()))),
        };
        let now = now_timestamp();
        proof {
            assert(propagates(self@, loc@.id, loc@.revision, edit@, n1@, n2@, n3@, now));
        }
        self.update_note_at(loc, edit, n1, n2, n3, now)
    }

    /// Replaces the content of a note, now.
    pub fn update_note_content(&mut self, loc: &NoteLocator, note_inner: T) -> (r: Result<NoteLocator, InMemoryStoreError>)
        requires
            old(self).wf(),
        ensures
            final(self).wf(),
            (r matches Err(InMemoryStoreError::RevisionConflict(_, _)) && final(self)@ == old(self)@) || exists|
                n1: Seq<char>,
                now: i128,
            |
                !own_revision(old(self)@, loc@.id, n1) && match #[trigger] step_outcome(
                    old(self)@,
                    loc@.id,
                    loc@.revision,
                    EditView::Content(note_inner@),
                    n1,
                    now,
                ) {
                    Ok(after) => r matches Ok(l) && l@.id == loc@.id && l@.revision == Some(n1) && final(self)@ == after,
                    Err(e) => r matches Err(x) && x@ == e && final(self)@ == old(self)@,
                },
    {
        let edit = TaggedEdit::Content(note_inner);
        let ghost e = edit@;
        let r = self.update_note(loc, edit);
        r
    }

    /// Adds a child to a note, now.
    pub fn add_child(&mut self, loc: &NoteLocator, child: &NoteID) -> (r: Result<NoteLocator, InMemoryStoreError>)
        requires
            old(self).wf(),
        ensures
            final(self).wf(),
            (r matches Err(InMemoryStoreError::RevisionConflict(_, _)) && final(self)@ == old(self)@) || exists|
                n1: Seq<char>,
                now: i128,
            |
                !own_revision(old(self)@, loc@.id, n1) && match #[trigger] step_outcome(
                    old(self)@,
                    loc@.id,
                    loc@.revision,
                    EditView::AddChild(child@),
                    n1,
                    now,
                ) {
                    Ok(after) => r matches Ok(l) && l@.id == loc@.id && l@.revision == Some(n1) && final(self)@ == after,
                    Err(e) => r matches Err(x) && x@ == e && final(self)@ == old(self)@,
                },
    {
        self.update_note(loc, TaggedEdit::AddChild(child.clone()))
    }

    /// Removes a child from a note, now; the note must have it.
    pub fn remove_child(&mut self, loc: &NoteLocator, child: &NoteID) -> (r: Result<NoteLocator, InMemoryStoreError>)
        requires
            old(self).wf(),
        ensures
            final(self).wf(),
            (r matches Err(InMemoryStoreError::RevisionConflict(_, _)) && final(self)@ == old(self)@) || exists|
                n1: Seq<char>,
                now: i128,
            |
                !own_revision(old(self)@, loc@.id, n1) && match #[trigger] step_outcome(
                    old(self)@,
                    loc@.id,
                    loc@.revision,
                    EditView::RemoveChild(child@),
                    n1,
                    now,
                ) {
                    Ok(after) => r matches Ok(l) && l@.id == loc@.id && l@.revision == Some(n1) && final(self)@ == after,
                    Err(e) => r matches Err(x) && x@ == e && final(self)@ == old(self)@,
                },
    {
        self.update_note(loc, TaggedEdit::RemoveChild(child.clone()))
    }

    /// Deletes the current revision of a note, now; the note leaves the
    /// children of its parent. When the drawn revision name is taken, nothing
    /// changes.
    pub fn delete_note(&mut self, loc: &NoteLocator) -> (r: Result<(), InMemoryStoreError>)
        requires
            old(self).wf(),
            forall|name: Seq<char>, now: i128|
                delete_name_fresh(old(self)@, loc@.id, loc@.revision, name) ==> #[trigger] deletes(old(self)@, loc@.id, loc@.revision, name, now),
        ensures
            final(self).wf(),
            (r matches Err(InMemoryStoreError::RevisionConflict(_, _)) && final(self)@ == old(self)@) || exists|
                name: Seq<char>,
                now: i128,
            |
                delete_name_fresh(old(self)@, loc@.id, loc@.revision, name) && match #[trigger] delete_outcome(old(self)@, loc@.id, loc@.revision, name, now) {
                    Ok(after) => r is Ok && final(self)@ == after,
                    Err(e) => r matches Err(x) && x@ == e && final(self)@ == old(self)@,
                },
    {
        let name = Revision::new(fresh_uuid());
        let parent = match self.get_note(loc) {
            Ok(n) => copy_opt(&n.parent),
            Err(_) => None,
        };
        let fresh = match &parent {
            Some(p) => !self.own_taken(p, &name),
            None => true,
        };
        proof {
            if let Some(p) = parent {
                assert(opt_seq(opt_text(parent))[0] == p@);
            }
        }
        if !fresh {
            return Err(InMemoryStoreError::RevisionConflict(loc.get_id().clone(), name));
        }
        let now = now_timestamp();
        proof {
            assert(deletes(self@, loc@.id, loc@.revision, name@, now));
        }
        self.delete_note_at(loc, name, now)
    }
}

/// One update keeps the store well formed.
pub proof fn lemma_step_wf<V>(s: Seq<HistoryView<V>>, id: Seq<char>, rev: Option<Seq<char>>, e: EditView<V>, name: Seq<char>, now: i128)
    requires
        store_wf(s),
        step_outcome(s, id, rev, e, name, now) is Ok,
    ensures
        store_wf(step_outcome(s, id, rev, e, name, now)->Ok_0),
        step_outcome(s, id, rev, e, name, now)->Ok_0.len() == s.len(),
        forall|i: int| 0 <= i < s.len() ==> (#[trigger] step_outcome(s, id, rev, e, name, now)->Ok_0[i]).id == s[i].id,
{
    let k = index_of(s, id);
    let h = s[k];
    assert(history_wf(h));
    let old = note_outcome(s, id, rev)->Ok_0;
    let j = revision_at(h, match rev {
        Some(r) => r,
        None => h.revisions[h.current->0].revision,
    });
    assert(old == h.revisions[j]);
    lemma_edited_distinct(old, e, id);
    let n = edited(old, e, id)->Ok_0;
    let nr = NoteView { revision: name, modified_at: now, created_at: old.created_at, ..n };
    let h2 = HistoryView { id: h.id, revisions: h.revisions.push(nr), current: Some(h.revisions.len() as int) };
    let s2 = s.update(k, h2);
    assert(!has_revision(h, name)) by {
        if has_revision(h, name) {
            assert(own_revision(s, id, name));
        }
    }
    assert forall|a: int, b: int| 0 <= a < b < h2.revisions.len() implies (#[trigger] h2.revisions[a]).revision
        != (#[trigger] h2.revisions[b]).revision by {
        if b == h.revisions.len() {
            assert(h2.revisions[a] == h.revisions[a]);
        }
    }
    assert(history_wf(h2));
    assert forall|i: int| 0 <= i < s2.len() implies history_wf(#[trigger] s2[i]) by {
        if i != k {
            assert(s2[i] == s[i]);
        }
    }
    assert forall|a: int, b: int| 0 <= a < b < s2.len() implies (#[trigger] s2[a]).id != (#[trigger] s2[b]).id by {
        assert(s[a].id != s[b].id);
    }
}

/// The current revision of a live note.
pub open spec fn current_note<V>(s: Seq<HistoryView<V>>, id: Seq<char>) -> NoteView<V> {
    s[index_of(s, id)].revisions[s[index_of(s, id)].current->0]
}

/// Setting a note's parent makes the note a child of the new parent: the new
/// parent's current revision lists it among its children.
pub proof fn law_set_parent_adds_child<V>(s: Seq<HistoryView<V>>, id: Seq<char>, rev: Option<Seq<char>>, q: Seq<char>, n1: Seq<char>, n2: Seq<char>, n3: Seq<char>, now: i128)
    requires
        store_wf(s),
        propagates(s, id, rev, EditView::SetParent(Some(q)), n1, n2, n3, now),
        update_outcome(s, id, rev, EditView::SetParent(Some(q)), n1, n2, n3, now) is Ok,
        note_outcome(s, id, rev)->Ok_0.parent != Some(q),
    ensures
        ({
            let s3 = update_outcome(s, id, rev, EditView::SetParent(Some(q)), n1, n2, n3, now)->Ok_0;
            &&& has_note(s3, q)
            &&& s3[index_of(s3, q)].current is Some
            &&& current_note(s3, q).children.contains(id)
        }),
{
    let e = EditView::SetParent(Some(q));
    let old = note_outcome(s, id, rev)->Ok_0;
    lemma_step_wf(s, id, rev, e, n1, now);
    let s1 = step_outcome(s, id, rev, e, n1, now)->Ok_0;
    let s2 = left_old_parent(s, id, rev, e, n1, n2, now);
    match old.parent {
        Some(p) => {
            lemma_step_wf(s1, p, None, EditView::RemoveChild(id), n2, now);
        },
        None => {},
    }
    assert(store_wf(s2));
    lemma_step_wf(s2, q, None, EditView::AddChild(id), n3, now);
    let s3 = step_outcome(s2, q, None, EditView::AddChild(id), n3, now)->Ok_0;
    let k = index_of(s2, q);
    assert(s3[k].id == q);
    lemma_index(s3, k);
    assert(update_outcome(s, id, rev, e, n1, n2, n3, now)->Ok_0 == s3);
    let oq = note_outcome(s2, q, None)->Ok_0;
    let nr = s3[k].revisions[s2[k].revisions.len() as int];
    assert(current_note(s3, q) == nr);
    assert(nr.children == (if oq.children.contains(id) {
        oq.children
    } else {
        oq.children.push(id)
    }));
    if !oq.children.contains(id) {
        assert(oq.children.push(id)[oq.children.len() as int] == id);
    }
}

/// Deleting a note takes it out of its parent's children: the parent's new
/// current revision does not list it; the note itself is deleted.
pub proof fn law_delete_leaves_parent<V>(s: Seq<HistoryView<V>>, id: Seq<char>, rev: Option<Seq<char>>, name: Seq<char>, now: i128, p: Seq<char>)
    requires
        store_wf(s),
        deletes(s, id, rev, name, now),
        delete_outcome(s, id, rev, name, now) is Ok,
        note_outcome(s, id, rev)->Ok_0.parent == Some(p),
        p != id,
    ensures
        ({
            let s2 = delete_outcome(s, id, rev, name, now)->Ok_0;
            &&& has_note(s2, p)
            &&& s2[index_of(s2, p)].current is Some
            &&& !current_note(s2, p).children.contains(id)
            &&& deleted_outcome(s2, id) == Ok::<bool, ErrorView>(true)
        }),
{
    let k = index_of(s, id);
    lemma_index(s, k);
    let s1 = s.update(k, HistoryView { current: None, ..s[k] });
    assert(store_wf(s1)) by {
        assert forall|i: int| 0 <= i < s1.len() implies history_wf(#[trigger] s1[i]) by {
            assert(history_wf(s[i]));
        }
        assert forall|a: int, b: int| 0 <= a < b < s1.len() implies (#[trigger] s1[a]).id != (#[trigger] s1[b]).id by {
            assert(s[a].id != s[b].id);
        }
    }
    let e = EditView::RemoveChild(id);
    lemma_step_wf(s1, p, None, e, name, now);
    let s2 = step_outcome(s1, p, None, e, name, now)->Ok_0;
    let kp = index_of(s1, p);
    lemma_index(s1, kp);
    assert(s2[kp].id == p);
    lemma_index(s2, kp);
    let old = note_outcome(s1, p, None)->Ok_0;
    assert(history_wf(s1[kp]));
    let j = revision_at(s1[kp], s1[kp].revisions[s1[kp].current->0].revision);
    assert(old == s1[kp].revisions[j]);
    lemma_without_distinct(old.children, id);
    lemma_index(s1, k);
    assert(s2[k] == s1[k]);
    lemma_index(s2, k);
}

} // verus!
