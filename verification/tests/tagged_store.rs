use notegraf::tagged::store::{InMemoryStore, InMemoryStoreError, TaggedEdit};
use notegraf::tagged::PlainNote;
use notegraf::{NoteID, NoteLocator};

fn set_parent(
    store: &mut InMemoryStore<PlainNote>,
    loc: &NoteLocator,
    parent: Option<NoteID>,
) -> Result<NoteLocator, InMemoryStoreError> {
    store.update_note(loc, TaggedEdit::SetParent(parent))
}

fn plain(body: &str) -> PlainNote {
    PlainNote::new(body.to_owned())
}

#[test]
fn add_child() {
    let mut store: InMemoryStore<PlainNote> = InMemoryStore::new();
    let loc1 = store.new_note(plain("Child")).unwrap();
    let loc2 = store.new_note(plain("Parent")).unwrap();
    store.add_child(&loc2, loc1.get_id()).unwrap();
    assert!(!store
        .get_note(&loc2) // This points to an old revision
        .unwrap()
        .children
        .contains(loc1.get_id()));
    assert!(store
        .get_note(&loc2.current())
        .unwrap()
        .children
        .contains(loc1.get_id()));
}

#[test]
fn remove_non_existent_child() {
    let mut store: InMemoryStore<PlainNote> = InMemoryStore::new();
    let loc1 = store.new_note(plain("Child")).unwrap();
    let loc2 = store.new_note(plain("Parent")).unwrap();
    assert!(matches!(
        store.remove_child(&loc2, loc1.get_id()).err().unwrap(),
        InMemoryStoreError::NotAChild(_, _)
    ));
}

#[test]
fn remove_child() {
    let mut store: InMemoryStore<PlainNote> = InMemoryStore::new();
    let loc1 = store.new_note(plain("Child")).unwrap();
    let loc2 = store.new_note(plain("Parent")).unwrap();
    let loc3 = store.add_child(&loc2, loc1.get_id()).unwrap();
    // This points to an old revision
    assert!(matches!(
        store.remove_child(&loc2, loc1.get_id()).err().unwrap(),
        InMemoryStoreError::UpdateOldRevision(_, _)
    ));
    let loc4 = store.remove_child(&loc2.current(), loc1.get_id()).unwrap();
    assert!(!store.get_note(&loc2).unwrap().children.contains(loc1.get_id()));
    assert!(store.get_note(&loc3).unwrap().children.contains(loc1.get_id()));
    assert!(!store.get_note(&loc4).unwrap().children.contains(loc1.get_id()));
    assert!(!store
        .get_note(&loc2.current())
        .unwrap()
        .children
        .contains(loc1.get_id()));
}

#[test]
fn test_set_parent() {
    let mut store: InMemoryStore<PlainNote> = InMemoryStore::new();
    let loc1 = store.new_note(plain("Child")).unwrap();
    let loc2 = store.new_note(plain("Parent")).unwrap();
    set_parent(&mut store, &loc1, Some(loc2.get_id().clone())).unwrap();
    assert!(store
        .get_note(&loc2.current())
        .unwrap()
        .children
        .contains(loc1.get_id()));
}

#[test]
fn delete_note_parent() {
    let mut store: InMemoryStore<PlainNote> = InMemoryStore::new();
    let loc1 = store.new_note(plain("Child")).unwrap();
    let loc2 = store.new_note(plain("Parent")).unwrap();
    set_parent(&mut store, &loc1, Some(loc2.get_id().clone())).unwrap();
    assert!(store
        .get_note(&loc2.current())
        .unwrap()
        .children
        .contains(loc1.get_id()));
    store.delete_note(&loc1.current()).unwrap();
    assert!(!store
        .get_note(&loc2.current())
        .unwrap()
        .children
        .contains(loc1.get_id()));
}

#[test]
fn tagged_store_lifecycle() {
    let mut store: InMemoryStore<PlainNote> = InMemoryStore::new();
    let loc1 = store.new_note(plain("Foo")).unwrap();
    let rev1 = loc1.get_revision().unwrap().clone();
    assert_eq!(store.get_current_revision(&loc1.current()).unwrap(), rev1);
    let loc2 = store.update_note_content(&loc1, plain("Foo1")).unwrap();
    let rev2 = loc2.get_revision().unwrap().clone();
    assert_ne!(rev1, rev2);
    assert_eq!(store.get_revisions(&loc1).unwrap(), vec![rev1.clone(), rev2.clone()]);
    store.delete_note(&loc1.current()).unwrap();
    assert!(store.is_deleted(&loc1).unwrap());
    assert!(matches!(
        store.is_current(&loc1).err().unwrap(),
        InMemoryStoreError::NoteDeleted(_)
    ));
    let revisions = store.get_revisions_with_note(&loc1).unwrap();
    let (last_revision, _) = revisions.last().unwrap();
    assert_eq!(last_revision, &rev2);
    store
        .update_note_content(
            &NoteLocator::Specific(loc1.get_id().clone(), last_revision.clone()),
            plain("Foo2"),
        )
        .unwrap();
    assert!(!store.is_deleted(&loc1).unwrap());
    assert!(matches!(
        store.get_note(&NoteLocator::Current(NoteID::new("missing".to_owned()))),
        Err(InMemoryStoreError::NoteNotExist(_))
    ));
}

#[test]
fn moving_a_child_between_parents() {
    let mut store: InMemoryStore<PlainNote> = InMemoryStore::new();
    let child = store.new_note(plain("Child")).unwrap();
    let p1 = store.new_note(plain("P1")).unwrap();
    let p2 = store.new_note(plain("P2")).unwrap();
    set_parent(&mut store, &child, Some(p1.get_id().clone())).unwrap();
    set_parent(&mut store, &child.current(), Some(p2.get_id().clone())).unwrap();
    assert!(!store.get_note(&p1.current()).unwrap().children.contains(child.get_id()));
    assert!(store.get_note(&p2.current()).unwrap().children.contains(child.get_id()));
    assert_eq!(
        store.get_note(&child.current()).unwrap().parent.as_ref(),
        Some(p2.get_id())
    );
}

#[test]
fn fresh_names_checks_the_notes_written_and_distinct() {
    let mut store: InMemoryStore<PlainNote> = InMemoryStore::new();
    let loc = store.new_note(plain("a")).unwrap();
    let other = store.new_note(plain("b")).unwrap();
    let own = loc.get_revision().unwrap().clone();
    let others = other.get_revision().unwrap().clone();
    let r = |s: &str| notegraf::Revision::new(s.to_owned());
    let content = TaggedEdit::Content(plain("c"));
    let ok = store.names_if_fresh(&loc, &content, r("x"), r("y"), r("z")).unwrap();
    assert_eq!((ok.0.as_str(), ok.1.as_str(), ok.2.as_str()), ("x", "y", "z"));
    assert!(store.names_if_fresh(&loc, &content, r("x"), r("x"), r("z")).is_none());
    assert!(store.names_if_fresh(&loc, &content, r("x"), r("y"), r("y")).is_none());
    assert!(store.names_if_fresh(&loc, &content, own, r("y"), r("z")).is_none());
    assert!(store.names_if_fresh(&loc, &content, others.clone(), r("y"), r("z")).is_some());
    let reparent = TaggedEdit::SetParent(Some(other.get_id().clone()));
    assert!(store.names_if_fresh(&loc, &reparent, r("x"), others, r("z")).is_none());
}
