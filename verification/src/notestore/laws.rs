//! Properties of the in-memory store that span its operations.
use crate::errors::StoreErrorView;
use crate::notemetadata::{lemma_dedup_no_duplicates, EditableView};
use crate::notestore::search::SearchView;
use crate::notetype::NoteType;
use crate::order::is_key_order;
use crate::text::{is_infix, lowercase};
use crate::notestore::in_memory::{
    delete_outcome, lemma_delete_keeps_wf, lemma_live_update, lemma_prev_live, lemma_parent_live,
    lemma_update_keeps_live, lemma_rebranched_distinct, parent_of, rebranched, relinked_store,
    has_branch, is_followed_by, lemma_filter_first, current_outcome,
    lemma_set_insert_distinct, prev_of, without_current, append_outcome, branch_outcome,
    computed_of, created_keys, found_in, note_outcome, limited, note_matches, record_matches, referrers,
    refers_to, search_result, ComputedView, by_revision_outcome, current_of, current_revision_outcome, current_word, first_revision,
    has_note, has_revision, is_live, lemma_note_id_injective, lemma_note_index,
    lemma_revision_index, lemma_revision_injective, note_index, revision_index,
    new_revision, note_id_text, record_of, record_wf, revision_text, stored_outcome, store_wf,
    update_error, updated_store, with_new_note, EditView, RecordView, StoredView,
};
use vstd::prelude::*;

verus! {

/// No two notes of a well-formed store have the same name.
pub proof fn law_names_distinct<V>(s: Seq<RecordView<V>>, i: int, j: int)
    requires
        store_wf(s),
        0 <= i < j < s.len(),
    ensures
        s[i].id != s[j].id,
{
    assert(record_wf(s[i], i as nat));
    assert(record_wf(s[j], j as nat));
    if s[i].id == s[j].id {
        lemma_note_id_injective(i as nat, j as nat);
    }
}

/// A new note gets a name that no note of the store had, the notes that were
/// there keep their records, and the new note reads back as written: through
/// its name alone or with its first revision, that revision holds the title,
/// content and metadata given, and it is the current revision.
pub proof fn law_new_note_reads_back<V>(s: Seq<RecordView<V>>, title: Seq<char>, inner: V, md: EditableView, now: i128)
    requires
        store_wf(s),
    ensures
        ({
            let s2 = with_new_note(s, title, inner, md, now);
            let id = note_id_text(s.len());
            let first = first_revision(title, inner, md, s.len(), now);
            &&& !has_note(s, id)
            &&& first.title == title && first.inner == inner
            &&& stored_outcome(s2, id, None) == Ok::<StoredView<V>, StoreErrorView>(first)
            &&& stored_outcome(s2, id, Some(revision_text(0))) == Ok::<StoredView<V>, StoreErrorView>(first)
            &&& current_revision_outcome(s2, id) == Ok::<Option<Seq<char>>, StoreErrorView>(Some(revision_text(0)))
            &&& forall|other: Seq<char>| has_note(s, other) ==> #[trigger] record_of(s2, other) == record_of(s, other)
        }),
{
    let s2 = with_new_note(s, title, inner, md, now);
    let id = note_id_text(s.len());
    let n = s.len() as int;
    if has_note(s, id) {
        let k = choose|k: int| 0 <= k < s.len() && (#[trigger] s[k]).id == id;
        assert(record_wf(s[k], k as nat));
        lemma_note_id_injective(k as nat, s.len());
    }
    assert(has_note(s2, id)) by {
        assert(s2[n].id == id);
    }
    let i = choose|i: int| 0 <= i < s2.len() && (#[trigger] s2[i]).id == id;
    if i < n {
        assert(s2[i] == s[i]);
        assert(has_note(s, id));
    }
    assert(note_index(s2, id) == n);
    let r = s2[n];
    assert(has_revision(r, revision_text(0))) by {
        assert(r.revisions[0].revision == revision_text(0));
    }
    assert(revision_index(r, revision_text(0)) == 0);
    assert forall|other: Seq<char>| has_note(s, other) implies #[trigger] record_of(s2, other) == record_of(s, other) by {
        let k = choose|k: int| 0 <= k < s.len() && (#[trigger] s[k]).id == other;
        lemma_note_index(s, k);
        assert(s2[k] == s[k]);
        assert(has_note(s2, other));
        let k2 = note_index(s2, other);
        if k2 == n {
            assert(record_wf(s[k], k as nat));
            lemma_note_id_injective(k as nat, s.len());
        } else {
            assert(s2[k2] == s[k2]);
            lemma_note_index(s, k2);
        }
    }
}

/// In a store changed only at the note at `k`, which keeps its name, that
/// note is still found at `k`.
proof fn lemma_index_after_change<V>(s: Seq<RecordView<V>>, s2: Seq<RecordView<V>>, k: int)
    requires
        store_wf(s),
        0 <= k < s.len(),
        s2.len() == s.len(),
        s2[k].id == s[k].id,
        forall|i: int| 0 <= i < s.len() && i != k ==> s2[i] == s[i],
    ensures
        has_note(s2, s[k].id),
        note_index(s2, s[k].id) == k,
        forall|other: Seq<char>|
            has_note(s, other) && other != s[k].id ==> has_note(s2, other) && #[trigger] record_of(s2, other)
                == record_of(s, other),
{
    lemma_note_index(s, k);
    let id = s[k].id;
    assert(s2[k].id == id);
    let i = note_index(s2, id);
    if i != k {
        assert(s2[i] == s[i]);
        lemma_note_index(s, i);
    }
    assert forall|other: Seq<char>| has_note(s, other) && other != s[k].id implies has_note(s2, other)
        && #[trigger] record_of(s2, other) == record_of(s, other) by {
        let j = choose|j: int| 0 <= j < s.len() && (#[trigger] s[j]).id == other;
        lemma_note_index(s, j);
        assert(s2[j] == s[j]);
        let j2 = note_index(s2, other);
        if j2 != j {
            assert(s2[j2] == s[j2]);
            lemma_note_index(s, j2);
        }
    }
}

/// An update writes a new revision that becomes current and reads back: its
/// content is the edit applied to the revision the locator points at, it
/// keeps the creation time and is modified at the time of the update. Every
/// earlier revision stays readable, unchanged, and other notes are untouched.
/// A resurrected note comes back without branches and without a next note.
pub proof fn law_update_reads_back<V>(s: Seq<RecordView<V>>, id: Seq<char>, rev: Option<Seq<char>>, e: EditView<V>, now: i128)
    requires
        store_wf(s),
        update_error(s, id, rev) is None,
    ensures
        ({
            let s2 = updated_store(s, id, rev, e, now);
            let r = record_of(s, id);
            let n = r.revisions.len();
            let b = stored_outcome(s, id, rev)->Ok_0;
            let nr = new_revision(b, e, n, now, !is_live(r));
            &&& stored_outcome(s, id, rev) is Ok
            &&& stored_outcome(s2, id, None) == Ok::<StoredView<V>, StoreErrorView>(nr)
            &&& stored_outcome(s2, id, Some(revision_text(n))) == Ok::<StoredView<V>, StoreErrorView>(nr)
            &&& current_revision_outcome(s2, id) == Ok::<Option<Seq<char>>, StoreErrorView>(Some(revision_text(n)))
            &&& nr.metadata.created_at == b.metadata.created_at
            &&& nr.metadata.modified_at == now
            &&& forall|j: int| 0 <= j < n ==> #[trigger] by_revision_outcome(s2, id, r.revisions[j].revision)
                == Ok::<StoredView<V>, StoreErrorView>(r.revisions[j])
            &&& !is_live(r) ==> nr.next is None && nr.branches.len() == 0
            &&& forall|other: Seq<char>| has_note(s, other) && other != id ==> has_note(s2, other) && #[trigger] record_of(s2, other) == record_of(s, other)
        }),
{
    let k = note_index(s, id);
    lemma_note_index(s, k);
    let r = s[k];
    assert(record_wf(r, k as nat));
    let n = r.revisions.len();
    let b = stored_outcome(s, id, rev)->Ok_0;
    let nr = new_revision(b, e, n, now, !is_live(r));
    let s2 = updated_store(s, id, rev, e, now);
    lemma_index_after_change(s, s2, k);
    let r2 = s2[k];
    assert(r2.revisions[n as int] == nr);
    assert(has_revision(r2, revision_text(n))) by {
        assert(r2.revisions[n as int].revision == revision_text(n));
    }
    let jn = revision_index(r2, revision_text(n));
    if jn < n {
        assert(r2.revisions[jn] == r.revisions[jn]);
        lemma_revision_injective(jn as nat, n);
    }
    assert forall|j: int| 0 <= j < n implies #[trigger] by_revision_outcome(s2, id, r.revisions[j].revision)
        == Ok::<StoredView<V>, StoreErrorView>(r.revisions[j]) by {
        assert(r2.revisions[j] == r.revisions[j]);
        assert(has_revision(r2, r.revisions[j].revision));
        let i = revision_index(r2, r.revisions[j].revision);
        if i == n {
            lemma_revision_injective(j as nat, n);
        } else {
            assert(r2.revisions[i] == r.revisions[i]);
            lemma_revision_injective(j as nat, i as nat);
        }
    }
}

/// Creating a note keeps the store well formed.
pub proof fn lemma_with_new_note_wf<V>(s: Seq<RecordView<V>>, title: Seq<char>, inner: V, md: EditableView, now: i128)
    requires
        store_wf(s),
    ensures
        store_wf(with_new_note(s, title, inner, md, now)),
{
    let s2 = with_new_note(s, title, inner, md, now);
    match md.tags {
        Some(t) => lemma_dedup_no_duplicates(t),
        None => {},
    }
    assert(record_wf(s2[s.len() as int], s.len()));
    assert forall|i: int| 0 <= i < s2.len() implies record_wf(#[trigger] s2[i], i as nat) by {
        if i < s.len() {
            assert(s2[i] == s[i]);
        }
    }
}

/// An update keeps the store well formed.
pub proof fn lemma_updated_store_wf<V>(s: Seq<RecordView<V>>, id: Seq<char>, rev: Option<Seq<char>>, e: EditView<V>, now: i128)
    requires
        store_wf(s),
        update_error(s, id, rev) is None,
    ensures
        store_wf(updated_store(s, id, rev, e, now)),
{
    let k = note_index(s, id);
    lemma_note_index(s, k);
    let r = s[k];
    assert(record_wf(r, k as nat));
    let n = r.revisions.len();
    let b = stored_outcome(s, id, rev)->Ok_0;
    let live = is_live(r);
    let j0 = match rev {
        Some(x) => revision_index(r, x),
        None => if live {
            r.current->0
        } else {
            0
        },
    };
    assert(b == r.revisions[j0]);
    if live {
        match rev {
            Some(x) => {
                lemma_revision_index(r, k as nat, r.current->0);
            },
            None => {},
        }
        assert(b == current_of(r));
    }
    let nr = new_revision(b, e, n, now, !live);
    match e {
        EditView::Content { title, inner, metadata } => {
            match metadata.tags {
                Some(t) => lemma_dedup_no_duplicates(t),
                None => {},
            }
        },
        EditView::AddBranch(c) => {
            lemma_set_insert_distinct(b.branches, c);
        },
        EditView::Rebranch(c, m) => {
            lemma_rebranched_distinct(b.branches, c, m);
        },
        _ => {},
    }
    assert(Seq::<Seq<char>>::empty().no_duplicates());
    let s2 = updated_store(s, id, rev, e, now);
    let r2 = s2[k];
    assert(r2.revisions == r.revisions.push(nr));
    assert forall|j: int| 0 <= j < r2.revisions.len() implies {
        &&& (#[trigger] r2.revisions[j]).id == note_id_text(k as nat)
        &&& r2.revisions[j].revision == revision_text(j as nat)
        &&& r2.revisions[j].metadata.schema_version <= crate::notemetadata::NOTE_METADATA_CURRENT_SCHEMA_VERSION
        &&& r2.revisions[j].metadata.tags.no_duplicates()
        &&& r2.revisions[j].branches.no_duplicates()
    } by {
        if j < n {
            assert(r2.revisions[j] == r.revisions[j]);
        }
    }
    assert(record_wf(r2, k as nat));
    assert forall|i: int| 0 <= i < s2.len() implies record_wf(#[trigger] s2[i], i as nat) by {
        if i != k {
            assert(s2[i] == s[i]);
        }
    }
}

/// Deleting a note leaves it without a current revision; every revision it
/// had stays readable by its name, unchanged.
pub proof fn law_delete_keeps_revisions<T: NoteType>(s: Seq<RecordView<T::V>>, id: Seq<char>, rev: Option<Seq<char>>, now: i128)
    requires
        store_wf(s),
        delete_outcome::<T>(s, id, rev, now) is Ok,
    ensures
        ({
            let s2 = delete_outcome::<T>(s, id, rev, now)->Ok_0;
            let r = record_of(s, id);
            &&& store_wf(s2)
            &&& current_revision_outcome(s2, id) == Ok::<Option<Seq<char>>, StoreErrorView>(None)
            &&& stored_outcome(s2, id, None) == Err::<StoredView<T::V>, StoreErrorView>(
                StoreErrorView::RevisionNotExist(id, current_word()),
            )
            &&& forall|j: int| 0 <= j < r.revisions.len() ==> #[trigger] by_revision_outcome(s2, id, r.revisions[j].revision)
                == Ok::<StoredView<T::V>, StoreErrorView>(r.revisions[j])
        }),
{
    let k = note_index(s, id);
    lemma_note_index(s, k);
    let r = s[k];
    assert(record_wf(r, k as nat));
    let c = current_of(r);
    lemma_relinked_wf::<T>(s, id, rev, now);
    let s1 = relinked_store(s, id, c.next, now);
    lemma_delete_keeps_wf(s1, k);
    let s2 = without_current(s1, id);
    lemma_note_index(s2, k);
    assert(record_wf(s2[k], k as nat));
    assert forall|j: int| 0 <= j < r.revisions.len() implies #[trigger] by_revision_outcome(s2, id, r.revisions[j].revision)
        == Ok::<StoredView<T::V>, StoreErrorView>(r.revisions[j]) by {
        lemma_revision_index(s2[k], k as nat, j);
        assert(s2[k].revisions[j] == r.revisions[j]);
    }
}

/// Relinking around a note that may be deleted keeps the store well formed,
/// every note at its place with its name, and the revisions of the deleted
/// note; it updates the note before it and its parent through their current
/// revisions.
pub proof fn lemma_relinked_wf<T: NoteType>(s: Seq<RecordView<T::V>>, id: Seq<char>, rev: Option<Seq<char>>, now: i128)
    requires
        store_wf(s),
        delete_outcome::<T>(s, id, rev, now) is Ok,
    ensures
        ({
            let k = note_index(s, id);
            let c = current_of(record_of(s, id));
            let s1 = match prev_of(s, id) {
                Some(p) => updated_store(s, p, None, EditView::SetNext(c.next), now),
                None => s,
            };
            let s2 = relinked_store(s, id, c.next, now);
            &&& store_wf(s1)
            &&& store_wf(s2)
            &&& s2.len() == s.len()
            &&& s2[k].id == id
            &&& forall|j: int| 0 <= j < record_of(s, id).revisions.len() ==> #[trigger] s2[k].revisions[j] == record_of(s, id).revisions[j]
            &&& (prev_of(s, id) matches Some(p) ==> update_error(s, p, None) is None)
            &&& (parent_of(s, id) matches Some(q) ==> update_error(s1, q, None) is None && q != id)
        }),
{
    let k = note_index(s, id);
    lemma_note_index(s, k);
    let r = s[k];
    assert(record_wf(r, k as nat));
    let c = current_of(r);
    let s1 = match prev_of(s, id) {
        Some(p) => updated_store(s, p, None, EditView::SetNext(c.next), now),
        None => s,
    };
    match prev_of(s, id) {
        Some(p) => {
            lemma_prev_live(s, id);
            lemma_live_update(s, p);
            lemma_updated_store_wf(s, p, None, EditView::SetNext(c.next), now);
            let kp = note_index(s, p);
            lemma_note_index(s, kp);
            if kp != k {
                assert(s1[k] == s[k]);
            }
        },
        None => {},
    }
    assert(s1.len() == s.len());
    assert(s1[k].id == id);
    assert(forall|j: int| 0 <= j < r.revisions.len() ==> s1[k].revisions[j] == r.revisions[j]);
    let s2 = relinked_store(s, id, c.next, now);
    match parent_of(s, id) {
        Some(q) => {
            lemma_parent_live(s, id);
            if q == id {
                assert(c.branches.contains(id));
            }
            match prev_of(s, id) {
                Some(p) => {
                    lemma_update_keeps_live(s, p, EditView::SetNext(c.next), now, q);
                },
                None => {},
            }
            lemma_live_update(s1, q);
            lemma_updated_store_wf(s1, q, None, EditView::Rebranch(id, c.next), now);
            let kq = note_index(s1, q);
            lemma_note_index(s1, kq);
            lemma_note_index(s1, k);
            assert(kq != k);
            assert(s2[k] == s1[k]);
        },
        None => {},
    }
}

/// Deleting a note takes it out of its sequence and from under its parent:
/// the note before it is followed by the note after it (none for the last
/// note of a sequence), and its parent loses it as a branch and gains the
/// note after it instead.
pub proof fn law_delete_relinks<T: NoteType>(s: Seq<RecordView<T::V>>, id: Seq<char>, rev: Option<Seq<char>>, now: i128)
    requires
        store_wf(s),
        delete_outcome::<T>(s, id, rev, now) is Ok,
        current_of(record_of(s, id)).next != Some(id),
    ensures
        ({
            let s2 = delete_outcome::<T>(s, id, rev, now)->Ok_0;
            let c = current_of(record_of(s, id));
            &&& (prev_of(s, id) matches Some(p) ==> (p != id ==> has_note(s2, p) && is_live(record_of(s2, p))
                && current_of(record_of(s2, p)).next == c.next))
            &&& (parent_of(s, id) matches Some(q) ==> has_note(s2, q) && is_live(record_of(s2, q))
                && !current_of(record_of(s2, q)).branches.contains(id)
                && (c.next matches Some(n) ==> current_of(record_of(s2, q)).branches.contains(n)))
        }),
{
    lemma_relinked_wf::<T>(s, id, rev, now);
    let k = note_index(s, id);
    lemma_note_index(s, k);
    let c = current_of(record_of(s, id));
    let s1 = match prev_of(s, id) {
        Some(p) => updated_store(s, p, None, EditView::SetNext(c.next), now),
        None => s,
    };
    let s2 = relinked_store(s, id, c.next, now);
    let s3 = without_current(s2, id);
    lemma_note_index(s2, k);
    lemma_index_after_change(s2, s3, k);
    assert(delete_outcome::<T>(s, id, rev, now)->Ok_0 == s3);
    match prev_of(s, id) {
        Some(p) => {
            lemma_prev_live(s, id);
            law_update_reads_back(s, p, None, EditView::SetNext(c.next), now);
            assert(stored_outcome(s1, p, None) is Ok);
            assert(current_of(record_of(s1, p)).next == c.next);
            match parent_of(s, id) {
                Some(q) => {
                    law_update_reads_back(s1, q, None, EditView::Rebranch(id, c.next), now);
                    if q == p {
                        assert(stored_outcome(s2, p, None) is Ok);
                        assert(current_of(record_of(s2, p)).next == c.next);
                    } else {
                        assert(record_of(s2, p) == record_of(s1, p));
                    }
                },
                None => {},
            }
            if p != id {
                assert(has_note(s2, p));
                assert(record_of(s3, p) == record_of(s2, p));
            }
        },
        None => {},
    }
    match parent_of(s, id) {
        Some(q) => {
            law_update_reads_back(s1, q, None, EditView::Rebranch(id, c.next), now);
            let b = stored_outcome(s1, q, None)->Ok_0;
            let kq = note_index(s1, q);
            lemma_note_index(s1, kq);
            assert(record_wf(s1[kq], kq as nat));
            assert(b == current_of(s1[kq]));
            lemma_rebranched_distinct(b.branches, id, c.next);
            assert(stored_outcome(s2, q, None) is Ok);
            assert(current_of(record_of(s2, q)).branches == rebranched(b.branches, id, c.next));
            assert(has_note(s2, q));
            assert(record_of(s3, q) == record_of(s2, q));
            assert(!current_of(record_of(s3, q)).branches.contains(id));
            match c.next {
                Some(n) => {
                    assert(current_of(record_of(s3, q)).branches.contains(n));
                },
                None => {},
            }
        },
        None => {},
    }
}

/// Deleting a note changes no other note than it, the note before it and
/// its parent: every other note keeps its record.
pub proof fn law_delete_keeps_others<T: NoteType>(s: Seq<RecordView<T::V>>, id: Seq<char>, rev: Option<Seq<char>>, now: i128, other: Seq<char>)
    requires
        store_wf(s),
        delete_outcome::<T>(s, id, rev, now) is Ok,
        has_note(s, other),
        other != id,
        prev_of(s, id) != Some(other),
        parent_of(s, id) != Some(other),
    ensures
        ({
            let s3 = delete_outcome::<T>(s, id, rev, now)->Ok_0;
            has_note(s3, other) && record_of(s3, other) == record_of(s, other)
        }),
{
    lemma_relinked_wf::<T>(s, id, rev, now);
    let kid = note_index(s, id);
    lemma_note_index(s, kid);
    let c = current_of(record_of(s, id));
    let s1 = match prev_of(s, id) {
        Some(p) => updated_store(s, p, None, EditView::SetNext(c.next), now),
        None => s,
    };
    let s2 = relinked_store(s, id, c.next, now);
    let s3 = without_current(s2, id);
    lemma_note_index(s2, kid);
    lemma_index_after_change(s2, s3, kid);
    assert(delete_outcome::<T>(s, id, rev, now)->Ok_0 == s3);
    match prev_of(s, id) {
        Some(p) => {
            law_update_reads_back(s, p, None, EditView::SetNext(c.next), now);
        },
        None => {},
    }
    match parent_of(s, id) {
        Some(q) => {
            law_update_reads_back(s1, q, None, EditView::Rebranch(id, c.next), now);
        },
        None => {},
    }
    assert(has_note(s2, other) && record_of(s2, other) == record_of(s, other));
}

/// Whether the live note `r` links to `id`: as one of its branches, or as
/// the note after it.
pub open spec fn links_to<V>(r: RecordView<V>, id: Seq<char>) -> bool {
    has_branch(r, id) || is_followed_by(r, id)
}

/// A note that no live note links to has no parent and no note before it.
pub proof fn lemma_unlinked_alone<V>(s: Seq<RecordView<V>>, id: Seq<char>)
    requires
        forall|k: int| 0 <= k < s.len() ==> !links_to(#[trigger] s[k], id),
    ensures
        parent_of(s, id) is None,
        prev_of(s, id) is None,
{
    let f = |r: RecordView<V>| has_branch(r, id);
    let g = |r: RecordView<V>| is_followed_by(r, id);
    if s.filter(f).len() > 0 {
        s.lemma_filter_pred(f, 0);
        assert(s.filter(f).contains(s.filter(f)[0]));
        s.lemma_filter_contains_rev(f, s.filter(f)[0]);
        let k = choose|k: int| 0 <= k < s.len() && s[k] == s.filter(f)[0];
        assert(links_to(s[k], id));
    }
    if s.filter(g).len() > 0 {
        s.lemma_filter_pred(g, 0);
        assert(s.filter(g).contains(s.filter(g)[0]));
        s.lemma_filter_contains_rev(g, s.filter(g)[0]);
        let k = choose|k: int| 0 <= k < s.len() && s[k] == s.filter(g)[0];
        assert(links_to(s[k], id));
    }
}

/// A resurrected note stands alone: where no live note links to the deleted
/// note, it comes back with no parent, no branches, no note before it and
/// none after it.
pub proof fn law_resurrect_stands_alone<V>(s: Seq<RecordView<V>>, id: Seq<char>, rev: Option<Seq<char>>, e: EditView<V>, now: i128)
    requires
        store_wf(s),
        update_error(s, id, rev) is None,
        !is_live(record_of(s, id)),
        forall|k: int| 0 <= k < s.len() ==> !links_to(#[trigger] s[k], id),
    ensures
        ({
            let s2 = updated_store(s, id, rev, e, now);
            &&& has_note(s2, id)
            &&& is_live(record_of(s2, id))
            &&& current_of(record_of(s2, id)).branches.len() == 0
            &&& current_of(record_of(s2, id)).next is None
            &&& parent_of(s2, id) is None
            &&& prev_of(s2, id) is None
        }),
{
    law_update_reads_back(s, id, rev, e, now);
    let k = note_index(s, id);
    lemma_note_index(s, k);
    let s2 = updated_store(s, id, rev, e, now);
    assert(stored_outcome(s2, id, None) is Ok);
    assert forall|j: int| 0 <= j < s2.len() implies !links_to(#[trigger] s2[j], id) by {
        if j == k {
            lemma_updated_store_wf(s, id, rev, e, now);
            lemma_note_index(s2, k);
            assert(s2[k] == record_of(s2, id));
        } else {
            assert(s2[j] == s[j]);
            assert(!links_to(s[j], id));
        }
    }
    lemma_unlinked_alone(s2, id);
}

/// Deleting a note leaves no live note linked to it, where its only links
/// came from its parent and the note before it, and it was not the note
/// after itself.
pub proof fn law_delete_unlinks<T: NoteType>(s: Seq<RecordView<T::V>>, id: Seq<char>, rev: Option<Seq<char>>, now: i128)
    requires
        store_wf(s),
        delete_outcome::<T>(s, id, rev, now) is Ok,
        current_of(record_of(s, id)).next != Some(id),
        forall|k: int| 0 <= k < s.len() && #[trigger] has_branch(s[k], id) ==> parent_of(s, id) == Some(s[k].id),
        forall|k: int| 0 <= k < s.len() && #[trigger] is_followed_by(s[k], id) ==> prev_of(s, id) == Some(s[k].id),
    ensures
        ({
            let s3 = delete_outcome::<T>(s, id, rev, now)->Ok_0;
            forall|k: int| 0 <= k < s3.len() ==> !links_to(#[trigger] s3[k], id)
        }),
{
    lemma_relinked_wf::<T>(s, id, rev, now);
    let kid = note_index(s, id);
    lemma_note_index(s, kid);
    let c = current_of(record_of(s, id));
    let s1 = match prev_of(s, id) {
        Some(p) => updated_store(s, p, None, EditView::SetNext(c.next), now),
        None => s,
    };
    let s2 = relinked_store(s, id, c.next, now);
    let s3 = without_current(s2, id);
    lemma_note_index(s2, kid);
    assert(delete_outcome::<T>(s, id, rev, now)->Ok_0 == s3);
    let kp = match prev_of(s, id) {
        Some(p) => note_index(s, p),
        None => -1,
    };
    let kq = match parent_of(s, id) {
        Some(q) => note_index(s1, q),
        None => -1,
    };
    match prev_of(s, id) {
        Some(p) => {
            lemma_prev_live(s, id);
            lemma_note_index(s, kp);
            assert(s1 == s.update(kp, s1[kp]));
            assert(current_of(s1[kp]).next == c.next);
            assert(current_of(s1[kp]).branches == current_of(s[kp]).branches);
        },
        None => {
            assert(s1 == s);
        },
    }
    match parent_of(s, id) {
        Some(q) => {
            lemma_parent_live(s, id);
            let kq0 = note_index(s, q);
            lemma_note_index(s, kq0);
            lemma_note_index(s1, kq);
            assert(s1[kq0].id == s[kq0].id);
            lemma_note_index(s1, kq0);
            assert(kq == kq0);
            let b1 = current_of(s1[kq]);
            lemma_rebranched_distinct(b1.branches, id, c.next);
            assert(s2 == s1.update(kq, s2[kq]));
            assert(current_of(s2[kq]).branches == rebranched(b1.branches, id, c.next));
            assert(current_of(s2[kq]).next == b1.next);
            assert(!current_of(s2[kq]).branches.contains(id));
        },
        None => {
            assert(s2 == s1);
        },
    }
    assert forall|j: int| 0 <= j < s3.len() implies !links_to(#[trigger] s3[j], id) by {
        if j != kid {
            assert(s3[j] == s2[j]);
            if j == kq {
                let q = parent_of(s, id)->0;
                if j == kp {
                    assert(current_of(s1[kp]).next == c.next);
                } else {
                    assert(s1[j] == s[j]);
                    if is_followed_by(s[j], id) {
                        assert(prev_of(s, id) == Some(s[j].id));
                        lemma_note_index(s, j);
                    }
                }
            } else {
                assert(s2[j] == s1[j]);
                if j == kp {
                    if has_branch(s[j], id) {
                        assert(parent_of(s, id) == Some(s[j].id));
                        lemma_note_index(s, j);
                        lemma_note_index(s1, j);
                    }
                } else {
                    assert(s1[j] == s[j]);
                    if has_branch(s[j], id) {
                        assert(parent_of(s, id) == Some(s[j].id));
                        lemma_note_index(s, j);
                        lemma_note_index(s1, j);
                    }
                    if is_followed_by(s[j], id) {
                        assert(prev_of(s, id) == Some(s[j].id));
                        lemma_note_index(s, j);
                    }
                }
            }
        }
    }
}

/// Appending a note links the last note of the sequence to it: the last
/// note's new current revision has the new note as its next note.
pub proof fn law_append_links<V>(s: Seq<RecordView<V>>, last: Seq<char>, title: Seq<char>, inner: V, md: EditableView, now: i128)
    requires
        store_wf(s),
        append_outcome(s, last, title, inner, md, now) is Ok,
    ensures
        ({
            let s2 = append_outcome(s, last, title, inner, md, now)->Ok_0;
            &&& has_note(s2, last)
            &&& is_live(record_of(s2, last))
            &&& current_of(record_of(s2, last)).next == Some(note_id_text(s.len()))
        }),
{
    let s1 = with_new_note(s, title, inner, md, now);
    law_new_note_reads_back(s, title, inner, md, now);
    lemma_with_new_note_wf(s, title, inner, md, now);
    let k = note_index(s, last);
    lemma_note_index(s, k);
    assert(s1[k] == s[k]);
    lemma_note_index(s1, k);
    lemma_live_update(s1, last);
    law_update_reads_back(s1, last, None, EditView::SetNext(Some(note_id_text(s.len()))), now);
}

/// A deletion answers, in this order: that the note does not exist; that
/// the locator does not point at its current revision; that the note has
/// branches; that other notes refer to it. Otherwise it succeeds.
pub proof fn law_delete_errors<T: NoteType>(s: Seq<RecordView<T::V>>, id: Seq<char>, rev: Option<Seq<char>>, now: i128)
    ensures
        !has_note(s, id) ==> delete_outcome::<T>(s, id, rev, now) == Err::<Seq<RecordView<T::V>>, StoreErrorView>(
            StoreErrorView::NoteNotExist(id),
        ),
        has_note(s, id) && current_outcome(s, id, rev) != Ok::<bool, StoreErrorView>(true) ==> delete_outcome::<T>(s, id, rev, now)
            == Err::<Seq<RecordView<T::V>>, StoreErrorView>(StoreErrorView::DeleteOldRevision(id, rev->0)),
        has_note(s, id) && current_outcome(s, id, rev) == Ok::<bool, StoreErrorView>(true) ==> {
            let c = current_of(record_of(s, id));
            &&& c.branches.len() > 0 ==> delete_outcome::<T>(s, id, rev, now) == Err::<Seq<RecordView<T::V>>, StoreErrorView>(
                StoreErrorView::HasBranches(id),
            )
            &&& c.branches.len() == 0 && referrers::<T>(s, id).len() > 0 ==> delete_outcome::<T>(s, id, rev, now)
                == Err::<Seq<RecordView<T::V>>, StoreErrorView>(StoreErrorView::HasReferences(id))
            &&& c.branches.len() == 0 && referrers::<T>(s, id).len() == 0 ==> delete_outcome::<T>(s, id, rev, now) is Ok
        },
{
}

/// After an append, the new note follows the last note: its previous note is
/// the last note, where no live note was linked to the new note's name
/// before.
pub proof fn law_append_prev<V>(s: Seq<RecordView<V>>, last: Seq<char>, title: Seq<char>, inner: V, md: EditableView, now: i128)
    requires
        store_wf(s),
        append_outcome(s, last, title, inner, md, now) is Ok,
        forall|k: int| 0 <= k < s.len() ==> !is_followed_by(#[trigger] s[k], note_id_text(s.len())),
    ensures
        prev_of(append_outcome(s, last, title, inner, md, now)->Ok_0, note_id_text(s.len())) == Some(last),
{
    law_append_links(s, last, title, inner, md, now);
    let s1 = with_new_note(s, title, inner, md, now);
    lemma_with_new_note_wf(s, title, inner, md, now);
    let s2 = append_outcome(s, last, title, inner, md, now)->Ok_0;
    let n = note_id_text(s.len());
    let kl = note_index(s, last);
    lemma_note_index(s, kl);
    assert(s1[kl] == s[kl]);
    lemma_note_index(s1, kl);
    lemma_live_update(s1, last);
    lemma_updated_store_wf(s1, last, None, EditView::SetNext(Some(n)), now);
    assert(s2 == s1.update(kl, s2[kl]));
    lemma_note_index(s2, kl);
    let f = |r: RecordView<V>| is_followed_by(r, n);
    let g = |r: RecordView<V>| r.id;
    assert(f(s2[kl]));
    if s2.take(kl).filter(f).len() > 0 {
        let t = s2.take(kl);
        t.lemma_filter_pred(f, 0);
        assert(t.filter(f).contains(t.filter(f)[0]));
        t.lemma_filter_contains_rev(f, t.filter(f)[0]);
        let j = choose|j: int| 0 <= j < t.len() && t[j] == t.filter(f)[0];
        assert(s2[j] == s[j]);
    }
    lemma_filter_first(s2, f, g, kl);
}

/// Adding a branch to a note gives the parent's new current revision the new
/// note among its branches.
pub proof fn law_add_branch_links<V>(s: Seq<RecordView<V>>, parent: Seq<char>, title: Seq<char>, inner: V, md: EditableView, now: i128)
    requires
        store_wf(s),
        branch_outcome(s, parent, title, inner, md, now).1 is None,
    ensures
        ({
            let s2 = branch_outcome(s, parent, title, inner, md, now).0;
            &&& has_note(s2, parent)
            &&& is_live(record_of(s2, parent))
            &&& current_of(record_of(s2, parent)).branches.contains(note_id_text(s.len()))
        }),
{
    let s1 = with_new_note(s, title, inner, md, now);
    lemma_with_new_note_wf(s, title, inner, md, now);
    let c = note_id_text(s.len());
    law_update_reads_back(s1, parent, None, EditView::AddBranch(c), now);
    let k = note_index(s1, parent);
    lemma_note_index(s1, k);
    assert(record_wf(s1[k], k as nat));
    let b = stored_outcome(s1, parent, None)->Ok_0;
    assert(b == current_of(s1[k]));
    lemma_set_insert_distinct(b.branches, c);
}

/// A live note whose current content refers to `b` is among the notes that
/// refer to `b`.
pub proof fn law_backlinks<T: NoteType>(s: Seq<RecordView<T::V>>, k: int, b: Seq<char>)
    requires
        0 <= k < s.len(),
        is_live(s[k]),
        T::referent_ids(current_of(s[k]).inner).contains(b),
    ensures
        referrers::<T>(s, b).contains(s[k].id),
{
    let f = |r: RecordView<T::V>| refers_to::<T>(r, b);
    let g = |r: RecordView<T::V>| r.id;
    s.lemma_filter_contains(f, k);
    let fs = s.filter(f);
    let i = choose|i: int| 0 <= i < fs.len() && fs[i] == s[k];
    assert(fs.map_values(g)[i] == s[k].id);
}

/// Every note a search answers is the current revision of a note and matches
/// the request, and there are no more of them than the request's limit.
pub proof fn law_search_answers<T: NoteType>(s: Seq<RecordView<T::V>>, sr: SearchView, out: Seq<ComputedView<T::V>>)
    requires
        store_wf(s),
        search_result::<T>(s, sr, out),
    ensures
        forall|i: int| 0 <= i < out.len() ==> note_matches::<T>(sr, #[trigger] out[i]) && out[i].is_current,
        sr.limit matches Some(l) ==> out.len() <= l,
{
    let pred = |r: RecordView<T::V>| record_matches::<T>(s, sr, r);
    let g = |r: RecordView<T::V>| computed_of::<T>(s, current_of(r));
    let fs = s.filter(pred);
    let f = found_in::<T>(s, s, sr);
    assert(f == fs.map_values(g));
    assert forall|i: int| 0 <= i < f.len() implies note_matches::<T>(sr, #[trigger] f[i]) && f[i].is_current by {
        s.lemma_filter_pred(pred, i);
        assert(fs.contains(fs[i]));
        s.lemma_filter_contains_rev(pred, fs[i]);
        let k = choose|k: int| 0 <= k < s.len() && s[k] == fs[i];
        lemma_note_index(s, k);
        assert(record_wf(s[k], k as nat));
    }
    let x = if sr.lexemes.len() == 0 {
        let idx = choose|idx: Seq<int>|
            is_key_order(created_keys(f), idx) && out == limited(
                idx.reverse().map_values(|i: int| f[i]),
                sr.limit,
            );
        let y = idx.reverse().map_values(|i: int| f[i]);
        assert forall|i: int| 0 <= i < y.len() implies note_matches::<T>(sr, #[trigger] y[i]) && y[i].is_current by {
            let j = idx.reverse()[i];
            assert(idx.contains(j)) by {
                assert(idx[idx.len() - 1 - i] == j);
            }
        }
        y
    } else {
        f
    };
    assert(out == limited(x, sr.limit));
    assert forall|i: int| 0 <= i < out.len() implies note_matches::<T>(sr, #[trigger] out[i]) && out[i].is_current by {
        assert(out[i] == x[i]);
    }
}

/// Every answer of a search is the current note of some live note of the
/// store that matches the request.
proof fn lemma_answers_from_store<T: NoteType>(s: Seq<RecordView<T::V>>, sr: SearchView, out: Seq<ComputedView<T::V>>)
    requires
        store_wf(s),
        search_result::<T>(s, sr, out),
    ensures
        forall|i: int| #![trigger out[i]] 0 <= i < out.len() ==> exists|k: int|
            0 <= k < s.len() && record_matches::<T>(s, sr, #[trigger] s[k]) && out[i] == computed_of::<T>(s, current_of(s[k])),
{
    let pred = |r: RecordView<T::V>| record_matches::<T>(s, sr, r);
    let g = |r: RecordView<T::V>| computed_of::<T>(s, current_of(r));
    let fs = s.filter(pred);
    let f = found_in::<T>(s, s, sr);
    assert(f == fs.map_values(g));
    assert forall|i: int| #![trigger f[i]] 0 <= i < f.len() implies exists|k: int|
        0 <= k < s.len() && record_matches::<T>(s, sr, #[trigger] s[k]) && f[i] == computed_of::<T>(s, current_of(s[k])) by {
        s.lemma_filter_pred(pred, i);
        assert(fs.contains(fs[i]));
        s.lemma_filter_contains_rev(pred, fs[i]);
        let k = choose|k: int| 0 <= k < s.len() && s[k] == fs[i];
        assert(record_matches::<T>(s, sr, s[k]));
    }
    let x = if sr.lexemes.len() == 0 {
        let idx = choose|idx: Seq<int>|
            is_key_order(created_keys(f), idx) && out == limited(
                idx.reverse().map_values(|i: int| f[i]),
                sr.limit,
            );
        let y = idx.reverse().map_values(|i: int| f[i]);
        assert forall|i: int| #![trigger y[i]] 0 <= i < y.len() implies exists|k: int|
            0 <= k < s.len() && record_matches::<T>(s, sr, #[trigger] s[k]) && y[i] == computed_of::<T>(s, current_of(s[k])) by {
            let j = idx.reverse()[i];
            assert(idx.contains(j)) by {
                assert(idx[idx.len() - 1 - i] == j);
            }
            assert(y[i] == f[j]);
        }
        y
    } else {
        f
    };
    assert(out == limited(x, sr.limit));
    assert forall|i: int| #![trigger out[i]] 0 <= i < out.len() implies exists|k: int|
        0 <= k < s.len() && record_matches::<T>(s, sr, #[trigger] s[k]) && out[i] == computed_of::<T>(s, current_of(s[k])) by {
        assert(out[i] == x[i]);
    }
}

/// A note with no note before it, no parent and no note referring to it is
/// linked to by no live note: none is followed by it, none has it as a
/// branch, and the current content of none refers to it.
pub proof fn lemma_orphan_unlinked<T: NoteType>(s: Seq<RecordView<T::V>>, id: Seq<char>)
    requires
        prev_of(s, id) is None,
        parent_of(s, id) is None,
        referrers::<T>(s, id).len() == 0,
    ensures
        forall|k: int| 0 <= k < s.len() ==> {
            &&& !is_followed_by(#[trigger] s[k], id)
            &&& !has_branch(s[k], id)
            &&& !refers_to::<T>(s[k], id)
        },
{
    let f = |r: RecordView<T::V>| is_followed_by(r, id);
    let g = |r: RecordView<T::V>| has_branch(r, id);
    let h = |r: RecordView<T::V>| refers_to::<T>(r, id);
    assert forall|k: int| 0 <= k < s.len() implies {
        &&& !is_followed_by(#[trigger] s[k], id)
        &&& !has_branch(s[k], id)
        &&& !refers_to::<T>(s[k], id)
    } by {
        if is_followed_by(s[k], id) {
            s.lemma_filter_contains(f, k);
            assert(s.filter(f).len() > 0);
        }
        if has_branch(s[k], id) {
            s.lemma_filter_contains(g, k);
            assert(s.filter(g).len() > 0);
        }
        if refers_to::<T>(s[k], id) {
            s.lemma_filter_contains(h, k);
            assert(s.filter(h).len() > 0);
        }
    }
}

/// What every note a search answers is: the current revision of a live note
/// of the store, reported as current, whose title or text holds each
/// positive lexeme and neither holds any negative one (ignoring case), that
/// carries each positive tag and no negative one, that carries no tag at
/// all for `!notag`, and, for `!orphan`, that no live note links to: none
/// has it as the note after it, none has it as a branch, and the current
/// content of none refers to it.
pub proof fn law_search_filters<T: NoteType>(s: Seq<RecordView<T::V>>, sr: SearchView, out: Seq<ComputedView<T::V>>)
    requires
        store_wf(s),
        search_result::<T>(s, sr, out),
    ensures
        forall|i: int| #![trigger out[i]] 0 <= i < out.len() ==> {
            &&& has_note(s, out[i].id)
            &&& is_live(record_of(s, out[i].id))
            &&& current_of(record_of(s, out[i].id)).revision == out[i].revision
            &&& current_of(record_of(s, out[i].id)).title == out[i].title
            &&& current_of(record_of(s, out[i].id)).inner == out[i].inner
            &&& current_of(record_of(s, out[i].id)).metadata == out[i].metadata
            &&& out[i].is_current
            &&& forall|j: int| 0 <= j < sr.lexemes.len() ==> {
                ||| is_infix(lowercase(#[trigger] sr.lexemes[j]), lowercase(out[i].title))
                ||| is_infix(lowercase(sr.lexemes[j]), lowercase(T::text_of(out[i].inner)))
            }
            &&& forall|j: int| 0 <= j < sr.lexemes_excluded.len() ==> {
                &&& !is_infix(lowercase(#[trigger] sr.lexemes_excluded[j]), lowercase(out[i].title))
                &&& !is_infix(lowercase(sr.lexemes_excluded[j]), lowercase(T::text_of(out[i].inner)))
            }
            &&& forall|j: int| 0 <= j < sr.tags.len() ==> out[i].metadata.tags.contains(#[trigger] sr.tags[j])
            &&& forall|j: int| 0 <= j < sr.tags_excluded.len() ==> !out[i].metadata.tags.contains(#[trigger] sr.tags_excluded[j])
            &&& (sr.no_tag ==> out[i].metadata.tags.len() == 0)
            &&& (sr.orphan ==> forall|k: int| 0 <= k < s.len() ==> {
                &&& !is_followed_by(#[trigger] s[k], out[i].id)
                &&& !has_branch(s[k], out[i].id)
                &&& !refers_to::<T>(s[k], out[i].id)
            })
        },
{
    lemma_answers_from_store::<T>(s, sr, out);
    assert forall|i: int| #![trigger out[i]] 0 <= i < out.len() implies {
        &&& has_note(s, out[i].id)
        &&& is_live(record_of(s, out[i].id))
        &&& current_of(record_of(s, out[i].id)).revision == out[i].revision
        &&& current_of(record_of(s, out[i].id)).title == out[i].title
        &&& current_of(record_of(s, out[i].id)).inner == out[i].inner
        &&& current_of(record_of(s, out[i].id)).metadata == out[i].metadata
        &&& out[i].is_current
        &&& forall|j: int| 0 <= j < sr.lexemes.len() ==> {
            ||| is_infix(lowercase(#[trigger] sr.lexemes[j]), lowercase(out[i].title))
            ||| is_infix(lowercase(sr.lexemes[j]), lowercase(T::text_of(out[i].inner)))
        }
        &&& forall|j: int| 0 <= j < sr.lexemes_excluded.len() ==> {
            &&& !is_infix(lowercase(#[trigger] sr.lexemes_excluded[j]), lowercase(out[i].title))
            &&& !is_infix(lowercase(sr.lexemes_excluded[j]), lowercase(T::text_of(out[i].inner)))
        }
        &&& forall|j: int| 0 <= j < sr.tags.len() ==> out[i].metadata.tags.contains(#[trigger] sr.tags[j])
        &&& forall|j: int| 0 <= j < sr.tags_excluded.len() ==> !out[i].metadata.tags.contains(#[trigger] sr.tags_excluded[j])
        &&& (sr.no_tag ==> out[i].metadata.tags.len() == 0)
        &&& (sr.orphan ==> forall|k: int| 0 <= k < s.len() ==> {
            &&& !is_followed_by(#[trigger] s[k], out[i].id)
            &&& !has_branch(s[k], out[i].id)
            &&& !refers_to::<T>(s[k], out[i].id)
        })
    } by {
        let k = choose|k: int|
            0 <= k < s.len() && record_matches::<T>(s, sr, #[trigger] s[k]) && out[i] == computed_of::<T>(s, current_of(s[k]));
        assert(record_wf(s[k], k as nat));
        lemma_note_index(s, k);
        let c = current_of(s[k]);
        assert(c.id == s[k].id);
        assert(record_of(s, out[i].id) == s[k]);
        let n = out[i];
        assert(note_matches::<T>(sr, n));
        assert forall|j: int| 0 <= j < sr.lexemes.len() implies {
            ||| is_infix(lowercase(#[trigger] sr.lexemes[j]), lowercase(n.title))
            ||| is_infix(lowercase(sr.lexemes[j]), lowercase(T::text_of(n.inner)))
        } by {
            assert(crate::notestore::in_memory::mentions(n.title, T::text_of(n.inner), sr.lexemes[j]));
        }
        assert forall|j: int| 0 <= j < sr.lexemes_excluded.len() implies {
            &&& !is_infix(lowercase(#[trigger] sr.lexemes_excluded[j]), lowercase(n.title))
            &&& !is_infix(lowercase(sr.lexemes_excluded[j]), lowercase(T::text_of(n.inner)))
        } by {
            assert(!crate::notestore::in_memory::mentions(n.title, T::text_of(n.inner), sr.lexemes_excluded[j]));
        }
        if sr.orphan {
            lemma_orphan_unlinked::<T>(s, n.id);
        }
    }
}

/// A note that no live note links to has no note before it, no parent and
/// no note referring to it.
pub proof fn lemma_unlinked_orphan<T: NoteType>(s: Seq<RecordView<T::V>>, id: Seq<char>)
    requires
        forall|k: int| 0 <= k < s.len() ==> {
            &&& !is_followed_by(#[trigger] s[k], id)
            &&& !has_branch(s[k], id)
            &&& !refers_to::<T>(s[k], id)
        },
    ensures
        prev_of(s, id) is None,
        parent_of(s, id) is None,
        referrers::<T>(s, id).len() == 0,
{
    assert forall|k: int| 0 <= k < s.len() implies !links_to(#[trigger] s[k], id) by {
        assert(!is_followed_by(s[k], id));
    }
    lemma_unlinked_alone(s, id);
    let h = |r: RecordView<T::V>| refers_to::<T>(r, id);
    if s.filter(h).len() > 0 {
        s.lemma_filter_pred(h, 0);
        assert(s.filter(h).contains(s.filter(h)[0]));
        s.lemma_filter_contains_rev(h, s.filter(h)[0]);
        let k = choose|k: int| 0 <= k < s.len() && s[k] == s.filter(h)[0];
        assert(!refers_to::<T>(s[k], id));
    }
}

/// A search without a limit misses no note: every live note of the store
/// whose current title or text holds each positive lexeme and neither holds
/// any negative one (ignoring case), that carries each positive tag and no
/// negative one, that carries no tag at all for `!notag`, and, for
/// `!orphan`, that no live note links to (as the note after it, as a branch
/// or by reference from its current content) is among the answers.
pub proof fn law_search_complete<T: NoteType>(s: Seq<RecordView<T::V>>, sr: SearchView, out: Seq<ComputedView<T::V>>, k: int)
    requires
        store_wf(s),
        search_result::<T>(s, sr, out),
        sr.limit is None,
        0 <= k < s.len(),
        is_live(s[k]),
        forall|j: int| 0 <= j < sr.lexemes.len() ==> {
            ||| is_infix(lowercase(#[trigger] sr.lexemes[j]), lowercase(current_of(s[k]).title))
            ||| is_infix(lowercase(sr.lexemes[j]), lowercase(T::text_of(current_of(s[k]).inner)))
        },
        forall|j: int| 0 <= j < sr.lexemes_excluded.len() ==> {
            &&& !is_infix(lowercase(#[trigger] sr.lexemes_excluded[j]), lowercase(current_of(s[k]).title))
            &&& !is_infix(lowercase(sr.lexemes_excluded[j]), lowercase(T::text_of(current_of(s[k]).inner)))
        },
        forall|j: int| 0 <= j < sr.tags.len() ==> current_of(s[k]).metadata.tags.contains(#[trigger] sr.tags[j]),
        forall|j: int| 0 <= j < sr.tags_excluded.len() ==> !current_of(s[k]).metadata.tags.contains(#[trigger] sr.tags_excluded[j]),
        sr.no_tag ==> current_of(s[k]).metadata.tags.len() == 0,
        sr.orphan ==> forall|j: int| 0 <= j < s.len() ==> {
            &&& !is_followed_by(#[trigger] s[j], s[k].id)
            &&& !has_branch(s[j], s[k].id)
            &&& !refers_to::<T>(s[j], s[k].id)
        },
    ensures
        exists|i: int| 0 <= i < out.len() && (#[trigger] out[i]).id == s[k].id,
{
    let pred = |r: RecordView<T::V>| record_matches::<T>(s, sr, r);
    let g = |r: RecordView<T::V>| computed_of::<T>(s, current_of(r));
    let fs = s.filter(pred);
    let f = found_in::<T>(s, s, sr);
    assert(f == fs.map_values(g));
    assert(record_wf(s[k], k as nat));
    let c = current_of(s[k]);
    assert(c.id == s[k].id);
    let n = computed_of::<T>(s, c);
    if sr.orphan {
        lemma_unlinked_orphan::<T>(s, s[k].id);
    }
    assert forall|j: int| 0 <= j < sr.lexemes.len() implies crate::notestore::in_memory::mentions(
        n.title,
        T::text_of(n.inner),
        #[trigger] sr.lexemes[j],
    ) by {}
    assert forall|j: int| 0 <= j < sr.lexemes_excluded.len() implies !crate::notestore::in_memory::mentions(
        n.title,
        T::text_of(n.inner),
        #[trigger] sr.lexemes_excluded[j],
    ) by {}
    assert(note_matches::<T>(sr, n));
    assert(pred(s[k]));
    s.lemma_filter_contains(pred, k);
    let p = choose|p: int| 0 <= p < fs.len() && fs[p] == s[k];
    assert(f[p] == n);
    if sr.lexemes.len() == 0 {
        let idx = choose|idx: Seq<int>|
            is_key_order(created_keys(f), idx) && out == limited(
                idx.reverse().map_values(|i: int| f[i]),
                sr.limit,
            );
        assert(idx.contains(p));
        let q = choose|q: int| 0 <= q < idx.len() && idx[q] == p;
        let m = idx.len() - 1 - q;
        assert(idx.reverse()[m] == p);
        assert(out[m] == f[p]);
    } else {
        assert(out[p] == f[p]);
    }
}

/// The names of the notes of `s` that pass `f`: exactly the notes that pass
/// it, and none where none passes it.
proof fn lemma_filter_ids<V>(s: Seq<RecordView<V>>, f: spec_fn(RecordView<V>) -> bool, m: Seq<Seq<char>>)
    requires
        m == s.filter(f).map_values(|r: RecordView<V>| r.id),
    ensures
        forall|x: Seq<char>| #[trigger] m.contains(x) <==> exists|k: int|
            0 <= k < s.len() && f(#[trigger] s[k]) && s[k].id == x,
        m.len() == 0 <==> forall|k: int| 0 <= k < s.len() ==> !f(#[trigger] s[k]),
        m.len() > 0 ==> exists|k: int| 0 <= k < s.len() && f(#[trigger] s[k]) && s[k].id == m[0],
{
    let fs = s.filter(f);
    assert forall|x: Seq<char>| #[trigger] m.contains(x) <==> exists|k: int|
        0 <= k < s.len() && f(#[trigger] s[k]) && s[k].id == x by {
        if m.contains(x) {
            let p = choose|p: int| 0 <= p < m.len() && m[p] == x;
            s.lemma_filter_pred(f, p);
            assert(fs.contains(fs[p]));
            s.lemma_filter_contains_rev(f, fs[p]);
            let k = choose|k: int| 0 <= k < s.len() && s[k] == fs[p];
            assert(f(s[k]) && s[k].id == x);
        }
        if exists|k: int| 0 <= k < s.len() && f(#[trigger] s[k]) && s[k].id == x {
            let k = choose|k: int| 0 <= k < s.len() && f(#[trigger] s[k]) && s[k].id == x;
            s.lemma_filter_contains(f, k);
            let p = choose|p: int| 0 <= p < fs.len() && fs[p] == s[k];
            assert(m[p] == x);
        }
    }
    if fs.len() > 0 {
        assert(m.contains(m[0]));
        let k = choose|k: int| 0 <= k < s.len() && f(#[trigger] s[k]) && s[k].id == m[0];
        assert(!(forall|k: int| 0 <= k < s.len() ==> !f(#[trigger] s[k])));
    } else {
        assert forall|k: int| 0 <= k < s.len() implies !f(#[trigger] s[k]) by {
            if f(s[k]) {
                s.lemma_filter_contains(f, k);
            }
        }
    }
}

/// The links of a note read through a locator, as they stand in the store:
/// the notes that refer to it are exactly the live notes whose current
/// content refers to it; it has a note before it exactly when some live
/// note is followed by it, and that note is one; it has a parent exactly
/// when some live note has it as a branch, and that note is one.
pub proof fn law_note_links<T: NoteType>(s: Seq<RecordView<T::V>>, id: Seq<char>, rev: Option<Seq<char>>)
    requires
        store_wf(s),
        note_outcome::<T>(s, id, rev) is Ok,
    ensures
        ({
            let n = note_outcome::<T>(s, id, rev)->Ok_0;
            &&& forall|x: Seq<char>| #[trigger] n.references.contains(x) <==> exists|k: int|
                0 <= k < s.len() && refers_to::<T>(#[trigger] s[k], id) && s[k].id == x
            &&& (n.prev is None <==> forall|k: int| 0 <= k < s.len() ==> !is_followed_by(#[trigger] s[k], id))
            &&& (n.prev matches Some(p) ==> exists|k: int|
                0 <= k < s.len() && is_followed_by(#[trigger] s[k], id) && s[k].id == p)
            &&& (n.parent is None <==> forall|k: int| 0 <= k < s.len() ==> !has_branch(#[trigger] s[k], id))
            &&& (n.parent matches Some(p) ==> exists|k: int|
                0 <= k < s.len() && has_branch(#[trigger] s[k], id) && s[k].id == p)
        }),
{
    law_note_current::<T>(s, id, rev);
    let n = note_outcome::<T>(s, id, rev)->Ok_0;
    lemma_filter_ids(s, |r: RecordView<T::V>| refers_to::<T>(r, id), n.references);
    lemma_filter_ids(
        s,
        |r: RecordView<T::V>| is_followed_by(r, id),
        s.filter(|r: RecordView<T::V>| is_followed_by(r, id)).map_values(|r: RecordView<T::V>| r.id),
    );
    lemma_filter_ids(
        s,
        |r: RecordView<T::V>| has_branch(r, id),
        s.filter(|r: RecordView<T::V>| has_branch(r, id)).map_values(|r: RecordView<T::V>| r.id),
    );
}

/// A content update gives the note a new current revision whose title is
/// the title given, where one is given, and the title of the revision the
/// locator points at otherwise; likewise its content. It keeps the creation
/// time and is modified at the time of the update.
pub proof fn law_update_content<V>(
    s: Seq<RecordView<V>>,
    id: Seq<char>,
    rev: Option<Seq<char>>,
    title: Option<Seq<char>>,
    inner: Option<V>,
    md: EditableView,
    now: i128,
)
    requires
        store_wf(s),
        update_error(s, id, rev) is None,
    ensures
        ({
            let s2 = updated_store(s, id, rev, EditView::Content { title, inner, metadata: md }, now);
            let b = stored_outcome(s, id, rev)->Ok_0;
            let c = current_of(record_of(s2, id));
            &&& stored_outcome(s, id, rev) is Ok
            &&& has_note(s2, id)
            &&& is_live(record_of(s2, id))
            &&& c.title == match title {
                Some(t) => t,
                None => b.title,
            }
            &&& c.inner == match inner {
                Some(n) => n,
                None => b.inner,
            }
            &&& c.metadata.created_at == b.metadata.created_at
            &&& c.metadata.modified_at == now
        }),
{
    let e = EditView::Content { title, inner, metadata: md };
    law_update_reads_back(s, id, rev, e, now);
    let s2 = updated_store(s, id, rev, e, now);
    assert(stored_outcome(s2, id, None) is Ok);
}

/// A note read through a locator is that note, at the revision the locator
/// names, if it names one, and at the current revision otherwise, with the
/// title, content, metadata, branches and next note of that revision; it is
/// reported as current exactly when its note is live and its revision is
/// the note's current revision.
pub proof fn law_note_current<T: NoteType>(s: Seq<RecordView<T::V>>, id: Seq<char>, rev: Option<Seq<char>>)
    requires
        store_wf(s),
        note_outcome::<T>(s, id, rev) is Ok,
    ensures
        ({
            let n = note_outcome::<T>(s, id, rev)->Ok_0;
            &&& has_note(s, id)
            &&& n.id == id
            &&& (n.is_current <==> (is_live(record_of(s, id)) && n.revision == current_of(record_of(s, id)).revision))
            &&& (rev matches Some(r) ==> n.revision == r)
            &&& (rev is None ==> n.is_current)
            &&& exists|j: int| {
                &&& 0 <= j < record_of(s, id).revisions.len()
                &&& (#[trigger] record_of(s, id).revisions[j]).revision == n.revision
                &&& record_of(s, id).revisions[j].title == n.title
                &&& record_of(s, id).revisions[j].inner == n.inner
                &&& record_of(s, id).revisions[j].metadata == n.metadata
                &&& record_of(s, id).revisions[j].branches == n.branches
                &&& record_of(s, id).revisions[j].next == n.next
            }
        }),
{
    let k = note_index(s, id);
    assert(has_note(s, id));
    lemma_note_index(s, k);
    assert(record_wf(s[k], k as nat));
    let st = stored_outcome(s, id, rev)->Ok_0;
    let j = match rev {
        Some(r) => revision_index(s[k], r),
        None => s[k].current->0,
    };
    assert(st == s[k].revisions[j]);
    assert(st.id == id);
    assert(record_of(s, id).revisions[j].revision == st.revision);
}

/// Filtering keeps the images of a sequence distinct, where they were.
pub proof fn lemma_filter_map_distinct<A, B>(s: Seq<A>, f: spec_fn(A) -> bool, h: spec_fn(A) -> B)
    requires
        s.map_values(h).no_duplicates(),
    ensures
        s.filter(f).map_values(h).no_duplicates(),
    decreases s.len(),
{
    reveal_with_fuel(Seq::<_>::filter, 1);
    if s.len() > 0 {
        let p = s.drop_last();
        assert(p.map_values(h) =~= s.map_values(h).drop_last());
        lemma_filter_map_distinct(p, f, h);
        if f(s.last()) {
            let fp = p.filter(f);
            let t = fp.map_values(h).push(h(s.last()));
            assert(s.filter(f).map_values(h) =~= t);
            assert forall|a: int, b: int| 0 <= a < b < t.len() implies #[trigger] t[a] != #[trigger] t[b] by {
                if b == fp.len() {
                    assert(fp.contains(fp[a]));
                    p.lemma_filter_contains_rev(f, fp[a]);
                    let i = choose|i: int| 0 <= i < p.len() && p[i] == fp[a];
                    assert(s.map_values(h)[i] != s.map_values(h)[s.len() - 1]);
                }
            }
        }
    }
}

/// The positions of a key order are each position once.
pub proof fn lemma_key_order_positions(keys: Seq<i128>, idx: Seq<int>)
    requires
        is_key_order(keys, idx),
    ensures
        idx.no_duplicates(),
        idx.len() == keys.len(),
{
    assert forall|a: int, b: int| 0 <= a < b < idx.len() implies idx[a] != idx[b] by {
        assert(crate::order::key_less(keys, idx[a], idx[b]));
    }
    idx.unique_seq_to_set();
    assert(idx.to_set() =~= vstd::set_lib::set_int_range(0, keys.len() as int)) by {
        assert forall|i: int| idx.to_set().contains(i) <==> 0 <= i < keys.len() by {
            assert(idx.contains(i) <==> 0 <= i < keys.len());
        }
    }
    vstd::set_lib::lemma_int_range(0, keys.len() as int);
}

/// How a search answers: all the current notes that match, up to the limit,
/// each note once; for a request without positive lexemes, newest first.
pub proof fn law_search_order<T: NoteType>(s: Seq<RecordView<T::V>>, sr: SearchView, out: Seq<ComputedView<T::V>>)
    requires
        store_wf(s),
        search_result::<T>(s, sr, out),
    ensures
        out.len() == limited(found_in::<T>(s, s, sr), sr.limit).len(),
        forall|i: int, j: int| 0 <= i < j < out.len() ==> out[i].id != out[j].id,
        sr.lexemes.len() == 0 ==> forall|i: int, j: int|
            0 <= i < j < out.len() ==> out[i].metadata.created_at >= out[j].metadata.created_at,
{
    let pred = |r: RecordView<T::V>| record_matches::<T>(s, sr, r);
    let g = |r: RecordView<T::V>| computed_of::<T>(s, current_of(r));
    let h = |r: RecordView<T::V>| r.id;
    let fs = s.filter(pred);
    let f = found_in::<T>(s, s, sr);
    assert(f == fs.map_values(g));
    assert forall|a: int, b: int| 0 <= a < b < s.map_values(h).len() implies s.map_values(h)[a] != s.map_values(h)[b] by {
        law_names_distinct(s, a, b);
    }
    lemma_filter_map_distinct(s, pred, h);
    assert forall|i: int| 0 <= i < f.len() implies (#[trigger] f[i]).id == fs[i].id by {
        assert(fs.contains(fs[i]));
        s.lemma_filter_contains_rev(pred, fs[i]);
        let k = choose|k: int| 0 <= k < s.len() && s[k] == fs[i];
        assert(record_wf(s[k], k as nat));
        s.lemma_filter_pred(pred, i);
    }
    assert forall|a: int, b: int| 0 <= a < f.len() && 0 <= b < f.len() && a != b implies f[a].id != f[b].id by {
        assert(fs.map_values(h)[a] == f[a].id);
        assert(fs.map_values(h)[b] == f[b].id);
    }
    if sr.lexemes.len() == 0 {
        let idx = choose|idx: Seq<int>|
            is_key_order(created_keys(f), idx) && out == limited(
                idx.reverse().map_values(|i: int| f[i]),
                sr.limit,
            );
        lemma_key_order_positions(created_keys(f), idx);
        let y = idx.reverse().map_values(|i: int| f[i]);
        let n = idx.len();
        assert forall|a: int, b: int| 0 <= a < b < y.len() implies y[a].id != y[b].id
            && y[a].metadata.created_at >= y[b].metadata.created_at by {
            let ia = idx[n - 1 - a];
            let ib = idx[n - 1 - b];
            assert(idx.contains(ia) && idx.contains(ib));
            assert(ia != ib);
            assert(crate::order::key_less(created_keys(f), ib, ia));
        }
        assert(out == limited(y, sr.limit));
        assert forall|i: int, j: int| 0 <= i < j < out.len() implies out[i].id != out[j].id
            && out[i].metadata.created_at >= out[j].metadata.created_at by {
            assert(out[i] == y[i] && out[j] == y[j]);
        }
    } else {
        assert forall|i: int, j: int| 0 <= i < j < out.len() implies out[i].id != out[j].id by {
            assert(out[i] == f[i] && out[j] == f[j]);
        }
    }
}

/// A note that has branches, or that the current content of a note refers
/// to, is not deleted.
pub proof fn law_linked_note_not_deleted<T: NoteType>(s: Seq<RecordView<T::V>>, id: Seq<char>, rev: Option<Seq<char>>, now: i128)
    requires
        has_note(s, id),
        is_live(record_of(s, id)),
        current_of(record_of(s, id)).branches.len() > 0 || referrers::<T>(s, id).len() > 0,
    ensures
        delete_outcome::<T>(s, id, rev, now) is Err,
{
}

} // verus!
