use notegraf::errors::NoteStoreError;
use notegraf::note::Note;
use notegraf::notemetadata::{NoteMetadata, NoteMetadataEditable};
use notegraf::notestore::in_memory::{
    note_contains_lexemes, note_excludes_lexemes, InMemoryNoteStored, InMemoryStoreInner, NoteRecord,
};
use notegraf::notetype::PlainNote;
use notegraf::{NoteID, NoteLocator, Revision};

fn store() -> InMemoryStoreInner<PlainNote> {
    InMemoryStoreInner::new()
}

fn plain(body: &str) -> PlainNote {
    PlainNote::new(body.to_owned())
}

fn tagged(tags: &[&str]) -> NoteMetadataEditable {
    NoteMetadataEditable {
        tags: Some(tags.iter().map(|t| t.to_string()).collect()),
        custom_metadata: None,
    }
}

fn is_deleted(store: &InMemoryStoreInner<PlainNote>, loc: &NoteLocator) -> bool {
    store.get_current_revision(loc).unwrap().is_none()
}

#[test]
fn in_memory_unique_id() {
    let mut store = store();
    let loc1 = store
        .new_note("".to_owned(), plain("Foo"), NoteMetadataEditable::unchanged())
        .unwrap();
    let loc2 = store
        .new_note("".to_owned(), plain("Bar"), NoteMetadataEditable::unchanged())
        .unwrap();
    assert_ne!(loc1.get_id(), loc2.get_id());
}

#[test]
fn in_memory_new_note_revision() {
    let mut store = store();
    let loc = store
        .new_note("".to_owned(), plain("Foo"), NoteMetadataEditable::unchanged())
        .unwrap();
    let rev = loc.get_revision().unwrap();
    assert_eq!(
        &store.get_current_revision(&loc.current()).unwrap().unwrap(),
        rev
    );
}

#[test]
fn in_memory_new_note_retrieve() {
    let mut store = store();
    let loc = store
        .new_note("".to_owned(), plain("Foo"), NoteMetadataEditable::unchanged())
        .unwrap();
    assert_eq!(
        store.get_note(&loc.current()).unwrap().get_note_inner(),
        plain("Foo")
    );
    assert_eq!(store.get_note(&loc).unwrap().get_note_inner(), plain("Foo"));
}

#[test]
fn in_memory_update_note() {
    let mut store = store();
    let loc1 = store
        .new_note("".to_owned(), plain("Foo"), NoteMetadataEditable::unchanged())
        .unwrap();
    let rev1 = loc1.get_revision().unwrap().clone();
    let created1 = store.get_note(&loc1.current()).unwrap().get_metadata().created_at;
    let modified1 = store.get_note(&loc1.current()).unwrap().get_metadata().modified_at;
    let loc2 = store
        .update_note(&loc1, None, Some(plain("Foo1")), NoteMetadataEditable::unchanged())
        .unwrap();
    let rev2 = loc2.get_revision().unwrap().clone();
    assert_ne!(rev1, rev2);
    assert_eq!(store.get_current_revision(&loc1).unwrap().unwrap(), rev2);
    assert_eq!(
        store.get_note(&loc1.current()).unwrap().get_note_inner(),
        plain("Foo1")
    );
    assert_eq!(
        store.get_note(&loc1.at_revision(&rev2)).unwrap().get_note_inner(),
        plain("Foo1")
    );
    assert_ne!(
        store.get_note(&loc1.at_revision(&rev2)).unwrap().get_metadata().modified_at,
        modified1
    );
    assert_eq!(
        store.get_note(&loc1.at_revision(&rev2)).unwrap().get_metadata().created_at,
        created1
    );
    let revisions = store.get_revisions(&loc1).unwrap();
    assert_eq!(revisions.len(), 2);
    assert_eq!(revisions[0].get_revision(), rev1);
    assert_eq!(revisions[1].get_revision(), rev2);
}

#[test]
fn in_memory_add_branch() {
    let mut store = store();
    let loc1 = store
        .new_note("".to_owned(), plain("Parent"), NoteMetadataEditable::unchanged())
        .unwrap();
    assert!(store
        .get_note(&loc1.current())
        .unwrap()
        .get_branches()
        .is_empty());
    let loc2 = store
        .add_branch(
            loc1.get_id(),
            "".to_owned(),
            plain("Branch"),
            NoteMetadataEditable::unchanged(),
        )
        .unwrap();
    assert!(store
        .get_note(&loc1.current())
        .unwrap()
        .get_branches()
        .contains(loc2.get_id()));
    assert_eq!(
        store.get_note(&loc2.current()).unwrap().get_parent().as_ref(),
        Some(loc1.get_id())
    );
}

#[test]
fn in_memory_delete_note_specific() {
    let mut store = store();
    let loc1 = store
        .new_note("".to_owned(), plain("Note"), NoteMetadataEditable::unchanged())
        .unwrap();
    store.delete_note(&loc1).unwrap();
    assert!(is_deleted(&store, &loc1));
}

#[test]
fn in_memory_delete_note_current() {
    let mut store = store();
    let loc1 = store
        .new_note("".to_owned(), plain("Note"), NoteMetadataEditable::unchanged())
        .unwrap();
    store.delete_note(&loc1.current()).unwrap();
    assert!(is_deleted(&store, &loc1));
    assert!(matches!(store.get_current_revision(&loc1).ok().unwrap(), None));
}

#[test]
fn in_memory_delete_note_with_branches() {
    let mut store = store();
    let loc1 = store
        .new_note("".to_owned(), plain("Parent"), NoteMetadataEditable::unchanged())
        .unwrap();
    let loc2 = store
        .add_branch(
            loc1.get_id(),
            "".to_owned(),
            plain("Branch"),
            NoteMetadataEditable::unchanged(),
        )
        .unwrap();
    assert!(store
        .get_note(&loc1.current())
        .unwrap()
        .get_branches()
        .contains(loc2.get_id()));
    assert!(matches!(
        store.delete_note(&loc1.current()),
        Err(NoteStoreError::HasBranches(_))
    ));
}

#[test]
fn in_memory_resurrect_deleted_note() {
    let mut store = store();
    let loc1 = store
        .new_note("".to_owned(), plain("Foo"), NoteMetadataEditable::unchanged())
        .unwrap();
    let loc2 = store
        .update_note(&loc1, None, Some(plain("Foo1")), NoteMetadataEditable::unchanged())
        .unwrap();
    store.delete_note(&loc1.current()).unwrap();
    let revisions = store.get_revisions(&loc1).unwrap();
    let last_note = revisions.last().unwrap();
    let last_inner = last_note.get_note_inner();
    assert_eq!(last_inner, plain("Foo1"));
    assert_eq!(&last_note.get_revision(), loc2.get_revision().unwrap());
    store
        .update_note(
            &NoteLocator::Specific(loc1.get_id().clone(), last_note.get_revision()),
            None,
            Some(last_inner),
            NoteMetadataEditable::unchanged(),
        )
        .unwrap();
    assert_eq!(
        store.get_note(&loc1.current()).unwrap().get_note_inner(),
        plain("Foo1")
    );
}

#[test]
fn in_memory_delete_middle_note_sequence() {
    let mut store = store();
    let loc1 = store
        .new_note("".to_owned(), plain("Head"), NoteMetadataEditable::unchanged())
        .unwrap();
    let loc2 = store
        .append_note(loc1.get_id(), "".to_owned(), plain("Middle"), NoteMetadataEditable::unchanged())
        .unwrap();
    let loc3 = store
        .append_note(loc2.get_id(), "".to_owned(), plain("Tail"), NoteMetadataEditable::unchanged())
        .unwrap();
    store.delete_note(&loc2.current()).unwrap();
    assert_eq!(
        &store.get_note(&loc1.current()).unwrap().get_next().unwrap(),
        loc3.get_id()
    );
    assert_eq!(
        &store.get_note(&loc3.current()).unwrap().get_prev().unwrap(),
        loc1.get_id()
    );
}

#[test]
fn in_memory_resurrect_note_in_sequence() {
    let mut store = store();
    let loc1 = store
        .new_note("".to_owned(), plain("Head"), NoteMetadataEditable::unchanged())
        .unwrap();
    let loc2 = store
        .append_note(loc1.get_id(), "".to_owned(), plain("Middle"), NoteMetadataEditable::unchanged())
        .unwrap();
    let _loc3 = store
        .append_note(loc2.get_id(), "".to_owned(), plain("Tail"), NoteMetadataEditable::unchanged())
        .unwrap();
    store.delete_note(&loc2.current()).unwrap();
    assert!(matches!(&store.get_current_revision(&loc2).ok().unwrap(), None));

    let revisions = store.get_revisions(&loc2).unwrap();
    let last_note = revisions.last().unwrap();
    let last_inner = last_note.get_note_inner();
    assert_eq!(last_inner, plain("Middle"));
    store
        .update_note(
            &NoteLocator::Specific(loc2.get_id().clone(), last_note.get_revision()),
            None,
            Some(last_inner),
            NoteMetadataEditable::unchanged(),
        )
        .unwrap();
    assert_eq!(
        store.get_note(&loc2.current()).unwrap().get_note_inner(),
        plain("Middle")
    );
    assert_eq!(store.get_note(&loc2.current()).unwrap().get_next(), None);
}

#[test]
fn in_memory_search_recent() {
    let mut store = store();
    store
        .new_note("".to_owned(), plain("Foo"), NoteMetadataEditable::unchanged())
        .unwrap();
    let notes = store.search(&("".into())).unwrap();
    assert_eq!(notes[0].get_note_inner(), plain("Foo"));
    assert_eq!(notes.len(), 1);
}

#[test]
fn in_memory_search_fulltext() {
    let mut store = store();
    store
        .new_note("hello world".to_owned(), plain("Foo"), NoteMetadataEditable::unchanged())
        .unwrap();
    store
        .new_note("goodbye world".to_owned(), plain("Foo"), NoteMetadataEditable::unchanged())
        .unwrap();
    let notes = store.search(&("hello".into())).unwrap();
    assert_eq!(notes[0].get_title(), "hello world");
    assert_eq!(notes.len(), 1);
    let notes = store.search(&("foo".into())).unwrap();
    assert_eq!(notes.len(), 2);
}

#[test]
fn in_memory_search_nonexist() {
    let mut store = store();
    store
        .new_note("hello world".to_owned(), plain("Foo"), NoteMetadataEditable::unchanged())
        .unwrap();
    store
        .new_note("goodbye world".to_owned(), plain("Foo"), NoteMetadataEditable::unchanged())
        .unwrap();
    let notes = store.search(&("fizzbuzz".into())).unwrap();
    assert_eq!(notes.len(), 0);
}

#[test]
fn in_memory_backlink() {
    let mut store = store();
    let loc1 = store
        .new_note("".to_owned(), plain("Hello world"), NoteMetadataEditable::unchanged())
        .unwrap();
    let mut note_inner_2 = plain("Goodbye world");
    note_inner_2.add_referent(loc1.get_id().clone());
    let loc2 = store
        .new_note("goodbye world".to_owned(), note_inner_2, NoteMetadataEditable::unchanged())
        .unwrap();
    let note = store.get_note(&loc1.current()).unwrap();
    let references = note.get_references();
    assert!(references.contains(loc2.get_id()));
}

#[test]
fn in_memory_search_tags() {
    let mut store = store();
    store
        .new_note("hello world".to_owned(), plain("Foo"), tagged(&["tag1"]))
        .unwrap();
    store
        .new_note("goodbye world".to_owned(), plain("Foo"), tagged(&["tag1"]))
        .unwrap();
    let notes = store.search(&("hello #tag1".into())).unwrap();
    assert_eq!(notes[0].get_title(), "hello world");
    assert_eq!(notes.len(), 1);
    let notes = store.search(&("#tag1".into())).unwrap();
    assert_eq!(notes.len(), 2);
}

#[test]
fn in_memory_search_orphan() {
    let mut store = store();
    let loc1 = store
        .new_note("".to_owned(), plain("Head"), NoteMetadataEditable::unchanged())
        .unwrap();
    store
        .append_note(loc1.get_id(), "".to_owned(), plain("Middle"), NoteMetadataEditable::unchanged())
        .unwrap();
    let notes = store.search(&("!orphan".into())).unwrap();
    assert_eq!(notes.len(), 1);
}

#[test]
fn in_memory_search_notag() {
    let mut store = store();
    store
        .new_note("hello world".to_owned(), plain("Foo"), tagged(&["tag1"]))
        .unwrap();
    store
        .new_note("goodbye world".to_owned(), plain("Foo"), NoteMetadataEditable::unchanged())
        .unwrap();
    let notes = store.search(&("world !notag".into())).unwrap();
    assert_eq!(notes[0].get_title(), "goodbye world");
    assert_eq!(notes.len(), 1);
    let notes = store.search(&("world".into())).unwrap();
    assert_eq!(notes.len(), 2);
}

#[test]
fn in_memory_issue_151() {
    let mut store = store();
    let loc = store
        .new_note("note 1".to_owned(), plain(""), NoteMetadataEditable::unchanged())
        .unwrap();
    let loc_next = store
        .append_note(loc.get_id(), "note 2".to_owned(), plain(""), NoteMetadataEditable::unchanged())
        .unwrap();
    let mut note_inner_ref = plain("ref");
    note_inner_ref.add_referent(loc.get_id().clone());
    let loc2 = store
        .new_note(
            "note 3".to_owned(),
            PlainNote::from_parts("ref".to_owned(), vec![loc.get_id().clone()]),
            NoteMetadataEditable::unchanged(),
        )
        .unwrap();
    let loc3 = store
        .new_note("note 4".to_owned(), note_inner_ref, NoteMetadataEditable::unchanged())
        .unwrap();
    let n = store.get_note(&loc.current()).unwrap();
    assert_eq!(&n.get_next().unwrap(), loc_next.get_id());
    assert_eq!(n.get_references().len(), 2);
    assert!(n.get_references().contains(loc2.get_id()));
    assert!(n.get_references().contains(loc3.get_id()));
}

#[test]
fn in_memory_tags() {
    let mut store = store();
    store.new_note("note 1".to_owned(), plain(""), tagged(&["tag1"])).unwrap();
    store
        .new_note("note 2".to_owned(), plain(""), tagged(&["tag1", "tag2"]))
        .unwrap();
    let loc3 = store
        .new_note("note 3".to_owned(), plain(""), tagged(&["tag2", "tag3"]))
        .unwrap();
    assert_eq!(store.tags().unwrap().len(), 3);
    store.delete_note(&loc3).unwrap();
    let tags = store.tags().unwrap();
    assert_eq!(tags.len(), 2);
    assert!(tags.contains(&"tag1".to_owned()));
    assert!(tags.contains(&"tag2".to_owned()));
}

#[test]
fn in_memory_search_limit_override() {
    let mut store = store();
    store
        .new_note("hello world".to_owned(), plain("Foo"), NoteMetadataEditable::unchanged())
        .unwrap();
    store
        .new_note("goodbye world".to_owned(), plain("Foo"), NoteMetadataEditable::unchanged())
        .unwrap();
    let notes = store.search(&("".into())).unwrap();
    assert_eq!(notes.len(), 2);
    let notes = store.search(&("!limit=1".into())).unwrap();
    assert_eq!(notes.len(), 1);
}

#[test]
fn in_memory_search_tag_exclude() {
    let mut store = store();
    let loc1 = store
        .new_note("hello world".to_owned(), plain("Foo"), tagged(&["tag1"]))
        .unwrap();
    let loc2 = store
        .new_note("goodbye world".to_owned(), plain("Foo"), NoteMetadataEditable::unchanged())
        .unwrap();
    let notes = store.search(&("world".into())).unwrap();
    assert_eq!(notes.len(), 2);
    let notes = store.search(&("world -#tag1".into())).unwrap();
    assert_eq!(notes.len(), 1);
    assert_eq!(&notes[0].get_id(), loc2.get_id());
    let notes = store.search(&("world #tag1".into())).unwrap();
    assert_eq!(notes.len(), 1);
    assert_eq!(&notes[0].get_id(), loc1.get_id());
}

#[test]
fn in_memory_search_lexeme_exclude() {
    let mut store = store();
    let loc1 = store
        .new_note("hello world".to_owned(), plain("Foo"), NoteMetadataEditable::unchanged())
        .unwrap();
    let loc2 = store
        .new_note("goodbye world".to_owned(), plain("Foo"), NoteMetadataEditable::unchanged())
        .unwrap();
    let notes = store.search(&("world".into())).unwrap();
    assert_eq!(notes.len(), 2);
    let notes = store.search(&("world -hello".into())).unwrap();
    assert_eq!(notes.len(), 1);
    assert_eq!(&notes[0].get_id(), loc2.get_id());
    let notes = store.search(&("world -goodbye".into())).unwrap();
    assert_eq!(notes.len(), 1);
    assert_eq!(&notes[0].get_id(), loc1.get_id());
}

#[test]
fn update_note_tags() {
    let mut store = store();
    let loc1 = store
        .new_note("".to_owned(), plain("Foo"), NoteMetadataEditable::unchanged())
        .unwrap();
    let rev1 = loc1.get_revision().unwrap().clone();
    let metadata1 = store.get_note(&loc1.current()).unwrap().get_metadata();
    let mut tags = metadata1.tags.clone();
    tags.push("my_tag".to_owned());
    let loc2 = store
        .update_note(
            &loc1,
            None,
            None,
            NoteMetadataEditable { tags: Some(tags), custom_metadata: None },
        )
        .unwrap();
    let rev2 = loc2.get_revision().unwrap().clone();
    assert_ne!(rev1, rev2);
    assert!(!store
        .get_note(&loc1)
        .unwrap()
        .get_metadata()
        .tags
        .contains(&"my_tag".to_owned()));
    assert!(store
        .get_note(&loc1.at_revision(&rev2))
        .unwrap()
        .get_metadata()
        .tags
        .contains(&"my_tag".to_owned()));
    assert!(store
        .get_note(&loc1.current())
        .unwrap()
        .get_metadata()
        .tags
        .contains(&"my_tag".to_owned()));
}

// Scenarios and laws on concrete values.

#[test]
fn names_follow_creation_order() {
    let mut store = store();
    let a = store.new_note_at("a".to_owned(), plain("A"), NoteMetadataEditable::unchanged(), 5).unwrap();
    let b = store.new_note_at("b".to_owned(), plain("B"), NoteMetadataEditable::unchanged(), 6).unwrap();
    assert_eq!(a.get_id().as_str(), "note-0");
    assert_eq!(b.get_id().as_str(), "note-1");
    assert_eq!(a.get_revision().unwrap().as_str(), "revision-0");
    let c = store
        .update_note_at(&b, Some("b2".to_owned()), None, NoteMetadataEditable::unchanged(), 7)
        .unwrap();
    assert_eq!(c.get_revision().unwrap().as_str(), "revision-1");
}

#[test]
fn new_note_times_and_metadata() {
    let mut store = store();
    let md = NoteMetadataEditable {
        tags: Some(vec!["x".to_owned(), "y".to_owned(), "x".to_owned()]),
        custom_metadata: Some("{\"k\":1}".to_owned()),
    };
    let loc = store.new_note_at("t".to_owned(), plain("A"), md, 42).unwrap();
    let m = store.get_note(&loc).unwrap().get_metadata();
    assert_eq!(m.created_at, 42);
    assert_eq!(m.modified_at, 42);
    assert_eq!(m.schema_version, 0);
    assert_eq!(m.tags, vec!["x".to_owned(), "y".to_owned()]);
    assert_eq!(m.custom_metadata, "{\"k\":1}");
    let loc2 = store
        .update_note_at(&loc, None, None, NoteMetadataEditable::unchanged(), 50)
        .unwrap();
    let m2 = store.get_note(&loc2).unwrap().get_metadata();
    assert_eq!(m2.created_at, 42);
    assert_eq!(m2.modified_at, 50);
    assert_eq!(m2.tags, vec!["x".to_owned(), "y".to_owned()]);
}

#[test]
fn update_of_old_revision_is_refused() {
    let mut store = store();
    let loc1 = store.new_note_at("".to_owned(), plain("A"), NoteMetadataEditable::unchanged(), 1).unwrap();
    store.update_note_at(&loc1, None, Some(plain("B")), NoteMetadataEditable::unchanged(), 2).unwrap();
    let r = store.update_note_at(&loc1, None, Some(plain("C")), NoteMetadataEditable::unchanged(), 3);
    assert!(matches!(r, Err(NoteStoreError::UpdateOldRevision(_, _))));
    assert_eq!(store.get_note(&loc1.current()).unwrap().get_note_inner(), plain("B"));
}

#[test]
fn missing_note_and_revision_errors() {
    let mut store = store();
    let loc = NoteLocator::Current(NoteID::new("note-7".to_owned()));
    assert!(matches!(store.get_note(&loc), Err(NoteStoreError::NoteNotExist(_))));
    assert!(matches!(store.get_revisions(&loc), Err(NoteStoreError::NoteNotExist(_))));
    assert!(matches!(store.get_current_revision(&loc), Err(NoteStoreError::NoteNotExist(_))));
    let real = store.new_note_at("".to_owned(), plain("A"), NoteMetadataEditable::unchanged(), 1).unwrap();
    let bad = real.at_revision(&Revision::new("revision-9".to_owned()));
    assert!(matches!(store.get_note(&bad), Err(NoteStoreError::RevisionNotExist(_, _))));
    assert!(matches!(store.delete_note_at(&bad, 2), Err(NoteStoreError::DeleteOldRevision(_, _))));
}

#[test]
fn deleted_note_keeps_revisions_but_has_no_current() {
    let mut store = store();
    let loc = store.new_note_at("".to_owned(), plain("A"), NoteMetadataEditable::unchanged(), 1).unwrap();
    store.delete_note_at(&loc.current(), 2).unwrap();
    assert!(matches!(store.get_note(&loc.current()), Err(NoteStoreError::RevisionNotExist(_, _))));
    assert_eq!(store.get_note(&loc).unwrap().get_note_inner(), plain("A"));
    assert!(!store.get_note(&loc).unwrap().is_current());
    assert_eq!(store.is_deleted(&loc).unwrap(), true);
    assert_eq!(store.search(&("".into())).unwrap().len(), 0);
}

#[test]
fn referred_note_cannot_be_deleted() {
    let mut store = store();
    let a = store.new_note_at("".to_owned(), plain("A"), NoteMetadataEditable::unchanged(), 1).unwrap();
    let inner = PlainNote::from_parts("B".to_owned(), vec![a.get_id().clone()]);
    store.new_note_at("".to_owned(), inner, NoteMetadataEditable::unchanged(), 2).unwrap();
    assert!(matches!(store.delete_note_at(&a, 3), Err(NoteStoreError::HasReferences(_))));
    assert_eq!(store.is_deleted(&a).unwrap(), false);
}

#[test]
fn append_after_note_with_next_is_refused() {
    let mut store = store();
    let a = store.new_note_at("".to_owned(), plain("A"), NoteMetadataEditable::unchanged(), 1).unwrap();
    store.append_note_at(a.get_id(), "".to_owned(), plain("B"), NoteMetadataEditable::unchanged(), 2).unwrap();
    let r = store.append_note_at(a.get_id(), "".to_owned(), plain("C"), NoteMetadataEditable::unchanged(), 3);
    assert!(matches!(r, Err(NoteStoreError::ExistingNext(_, _))));
    assert_eq!(store.records().len(), 2);
}

#[test]
fn branch_of_missing_parent_still_creates_the_note() {
    let mut store = store();
    let parent = NoteID::new("nowhere".to_owned());
    let r = store.add_branch_at(&parent, "".to_owned(), plain("B"), NoteMetadataEditable::unchanged(), 1);
    assert!(matches!(r, Err(NoteStoreError::NoteNotExist(_))));
    assert_eq!(store.records().len(), 1);
}

#[test]
fn search_orders_newest_first_and_limits() {
    let mut store = store();
    store.new_note_at("a".to_owned(), plain("x"), NoteMetadataEditable::unchanged(), 30).unwrap();
    store.new_note_at("b".to_owned(), plain("x"), NoteMetadataEditable::unchanged(), 10).unwrap();
    store.new_note_at("c".to_owned(), plain("x"), NoteMetadataEditable::unchanged(), 20).unwrap();
    store.new_note_at("d".to_owned(), plain("x"), NoteMetadataEditable::unchanged(), 20).unwrap();
    let titles: Vec<String> = store.search(&("".into())).unwrap().iter().map(|n| n.get_title()).collect();
    assert_eq!(titles, vec!["a", "d", "c", "b"]);
    let titles: Vec<String> = store.search(&("!limit=2".into())).unwrap().iter().map(|n| n.get_title()).collect();
    assert_eq!(titles, vec!["a", "d"]);
    let titles: Vec<String> = store.search(&("x".into())).unwrap().iter().map(|n| n.get_title()).collect();
    assert_eq!(titles, vec!["a", "b", "c", "d"]);
}

#[test]
fn search_ignores_case() {
    let mut store = store();
    store.new_note_at("Hello World".to_owned(), plain("body"), NoteMetadataEditable::unchanged(), 1).unwrap();
    assert_eq!(store.search(&("WORLD".into())).unwrap().len(), 1);
    assert_eq!(store.search(&("-hello".into())).unwrap().len(), 0);
}

#[test]
fn revisions_in_modification_order() {
    let mut store = store();
    let loc = store.new_note_at("".to_owned(), plain("A"), NoteMetadataEditable::unchanged(), 100).unwrap();
    store.update_note_at(&loc.current(), None, Some(plain("B")), NoteMetadataEditable::unchanged(), 50).unwrap();
    store.update_note_at(&loc.current(), None, Some(plain("C")), NoteMetadataEditable::unchanged(), 50).unwrap();
    let revs: Vec<String> = store
        .get_revisions(&loc)
        .unwrap()
        .iter()
        .map(|n| n.get_revision().as_str().to_owned())
        .collect();
    assert_eq!(revs, vec!["revision-1", "revision-2", "revision-0"]);
}

#[test]
fn referents_readable_and_restore() {
    let mut store = store();
    store.new_note_at("".to_owned(), plain("A"), NoteMetadataEditable::unchanged(), 1).unwrap();
    assert!(store.referents_readable());
    let restored = InMemoryStoreInner::<PlainNote>::from_records(Vec::new());
    assert!(restored.is_some());
}

#[test]
fn populate_test_data_builds_a_sequence() {
    let mut store: InMemoryStoreInner<notegraf::notetype::MarkdownNote> = InMemoryStoreInner::new();
    let locs = store.populate_test_data();
    assert_eq!(locs.len(), 3);
    assert_eq!(store.records().len(), 3);
    let first = store.get_note(&locs[0].current()).unwrap();
    assert_eq!(first.get_title(), "A big sequence!");
    assert_eq!(first.get_next().as_ref(), Some(locs[1].get_id()));
    let second = store.get_note(&locs[1].current()).unwrap();
    assert_eq!(second.get_metadata().tags, vec!["tag1".to_owned(), "tag2".to_owned()]);
    assert_eq!(second.get_prev().as_ref(), Some(locs[0].get_id()));
    assert_eq!(second.get_next().as_ref(), Some(locs[2].get_id()));
}

#[test]
fn plain_note_search_matches_body_not_json() {
    let note = PlainNote::from_parts("a\"b".to_owned(), vec![NoteID::new("id1".to_owned())]);
    assert_eq!(note.to_json(), "{\"body\":\"a\\\"b\",\"referents\":[\"id1\"]}");
    let mut store = store();
    store.new_note_at("t".to_owned(), note, NoteMetadataEditable::unchanged(), 1).unwrap();
    store.new_note_at("".to_owned(), plain("Foo"), NoteMetadataEditable::unchanged(), 2).unwrap();
    assert_eq!(store.search(&("referents".into())).unwrap().len(), 0);
    assert_eq!(store.search(&("body".into())).unwrap().len(), 0);
    assert_eq!(store.search(&("id1".into())).unwrap().len(), 0);
    assert_eq!(store.search(&("a\"b".into())).unwrap().len(), 1);
    assert_eq!(store.search(&("foo".into())).unwrap().len(), 1);
}

#[test]
fn malformed_records_are_refused() {
    let stored = |id: &str, rev: &str| InMemoryNoteStored {
        title: "t".to_owned(),
        note_inner: plain("x"),
        id: NoteID::new(id.to_owned()),
        revision: Revision::new(rev.to_owned()),
        branches: vec![],
        next: None,
        metadata: NoteMetadata {
            schema_version: 0,
            created_at: 1,
            modified_at: 1,
            tags: vec![],
            custom_metadata: "null".to_owned(),
        },
    };
    let good = NoteRecord { id: NoteID::new("note-0".to_owned()), revisions: vec![stored("note-0", "revision-0")], current: Some(0) };
    let restored = InMemoryStoreInner::from_records(vec![good]).unwrap();
    assert_eq!(restored.get_note(&NoteLocator::Current(NoteID::new("note-0".to_owned()))).unwrap().get_title(), "t");
    let misnamed = NoteRecord { id: NoteID::new("note-5".to_owned()), revisions: vec![stored("note-5", "revision-0")], current: Some(0) };
    assert!(InMemoryStoreInner::from_records(vec![misnamed]).is_none());
    let bad_current = NoteRecord { id: NoteID::new("note-0".to_owned()), revisions: vec![stored("note-0", "revision-0")], current: Some(1) };
    assert!(InMemoryStoreInner::from_records(vec![bad_current]).is_none());
}

#[test]
fn delete_last_note_of_sequence_clears_next() {
    let mut s = store();
    let u = NoteMetadataEditable::unchanged;
    let l1 = s.new_note("".to_owned(), plain("Head"), u()).unwrap();
    let l2 = s.append_note(l1.get_id(), "".to_owned(), plain("Tail"), u()).unwrap();
    assert!(s.delete_note(&l2.current()).is_ok());
    assert_eq!(s.get_note(&l1.current()).unwrap().get_next(), None);
    assert!(s.append_note(l1.get_id(), "".to_owned(), plain("New tail"), u()).is_ok());
}

#[test]
fn delete_branch_with_next_moves_next_under_parent() {
    let mut s = store();
    let u = NoteMetadataEditable::unchanged;
    let p = s.new_note("".to_owned(), plain("P"), u()).unwrap();
    let c = s.add_branch(p.get_id(), "".to_owned(), plain("C"), u()).unwrap();
    let n = s.append_note(c.get_id(), "".to_owned(), plain("N"), u()).unwrap();
    assert!(s.delete_note(&c.current()).is_ok());
    let parent = s.get_note(&p.current()).unwrap();
    assert!(parent.get_branches().contains(n.get_id()));
    assert!(!parent.get_branches().contains(c.get_id()));
    let next = s.get_note(&n.current()).unwrap();
    assert_eq!(next.get_parent().as_ref(), Some(p.get_id()));
    assert_eq!(next.get_prev(), None);
}

#[test]
fn resurrected_branch_stands_alone() {
    let mut s = store();
    let u = NoteMetadataEditable::unchanged;
    let p = s.new_note("".to_owned(), plain("P"), u()).unwrap();
    let c = s.add_branch(p.get_id(), "".to_owned(), plain("C"), u()).unwrap();
    s.delete_note(&c.current()).unwrap();
    let revisions = s.get_revisions(&c).unwrap();
    let last = revisions.last().unwrap();
    s.update_note(&NoteLocator::Specific(c.get_id().clone(), last.get_revision()), None, None, u())
        .unwrap();
    let back = s.get_note(&c.current()).unwrap();
    assert_eq!(back.get_parent(), None);
    assert_eq!(back.get_prev(), None);
    assert_eq!(back.get_next(), None);
    assert!(back.get_branches().is_empty());
    assert!(s.get_note(&p.current()).unwrap().get_branches().is_empty());
}

#[test]
fn times_before_the_epoch_are_kept_and_ordered() {
    let mut store = store();
    let u = NoteMetadataEditable::unchanged;
    let old = store.new_note_at("old".to_owned(), plain("a"), u(), -5_000_000_000).unwrap();
    let _new = store.new_note_at("new".to_owned(), plain("b"), u(), 3).unwrap();
    assert_eq!(store.get_note(&old).unwrap().get_metadata().created_at, -5_000_000_000);
    let found = store.search(&("".into())).unwrap();
    assert_eq!(found[0].get_title(), "new");
    assert_eq!(found[1].get_title(), "old");
}

#[test]
fn lexemes_match_title_or_body_ignoring_case() {
    let words = |w: &[&str]| w.iter().map(|s| s.to_string()).collect::<Vec<String>>();
    assert!(note_contains_lexemes("Hello World", "body", &words(&["world", "BODY"])));
    assert!(!note_contains_lexemes("Hello", "body", &words(&["world"])));
    assert!(note_contains_lexemes("", "", &words(&[])));
    assert!(note_excludes_lexemes("Hello", "body", &words(&["world"])));
    assert!(!note_excludes_lexemes("Hello", "body", &words(&["hello"])));
}
