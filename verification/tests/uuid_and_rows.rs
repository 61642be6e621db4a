use notegraf::errors::NoteStoreError;
use notegraf::notemetadata::NoteMetadata;
use notegraf::notestore::postgresql::PostgreSQLNoteRowJoined;
use notegraf::notestore::postgresql_steps::{
    append_source, current_revision_outcome, deleted_outcome, deletion_relink, deletion_source,
    update_source, written_location, PostgreSQLNoteEditable, PostgreSQLNoteRow,
};
use notegraf::notetype::{MarkdownNote, PlainNote};
use notegraf::{NoteID, NoteLocator, Revision};

const TEXT: &str = "67e55044-10b1-426f-9247-bb680e5fe0c8";
const VALUE: u128 = 0x67e55044_10b1_426f_9247_bb680e5fe0c8;

fn metadata(tags: Vec<String>) -> NoteMetadata {
    NoteMetadata {
        schema_version: 0,
        created_at: 10,
        modified_at: 20,
        tags,
        custom_metadata: "null".to_owned(),
    }
}

fn joined(next: Option<Vec<NoteID>>, prev: Option<NoteID>, branches: Vec<NoteID>, references: Vec<NoteID>) -> PostgreSQLNoteRowJoined {
    PostgreSQLNoteRowJoined {
        revision: Revision::new("r".to_owned()),
        id: NoteID::new("n".to_owned()),
        title: "t".to_owned(),
        note_inner: "body".to_owned(),
        parent: None,
        branches: Some(branches),
        prev,
        next,
        referents: vec![],
        references: Some(references),
        metadata_schema_version: 0,
        metadata_created_at: 1,
        metadata_modified_at: 1,
        metadata_tags: vec![],
        metadata_custom_metadata: "null".to_owned(),
        is_current: true,
    }
}

#[test]
fn note_id_to_uuid() {
    assert_eq!(NoteID::new(TEXT.to_owned()).to_uuid(), Some(VALUE));
    assert_eq!(NoteID::new("67e5504410b1426f9247bb680e5fe0c8".to_owned()).to_uuid(), Some(VALUE));
    assert_eq!(NoteID::new("note-1".to_owned()).to_uuid(), None);
    assert_eq!(Revision::new(TEXT.to_owned()).to_uuid(), Some(VALUE));
    assert_eq!(Revision::new("".to_owned()).to_uuid(), None);
}

#[test]
fn try_to_uuid_errors() {
    match NoteID::new("note-1".to_owned()).try_to_uuid() {
        Err(NoteStoreError::NotUuid(s)) => assert_eq!(s, "note-1"),
        _ => panic!("expected an error"),
    }
    match Revision::new("rev".to_owned()).try_to_uuid() {
        Err(e) => assert_eq!(e.message(), "note ID `rev` is not a UUID"),
        _ => panic!("expected an error"),
    }
    assert_eq!(Revision::new(TEXT.to_owned()).try_to_uuid().ok(), Some(VALUE));
}

#[test]
fn uuid_text_round_trip() {
    let id = NoteID::from_uuid(VALUE);
    assert_eq!(id.as_str(), TEXT);
    assert_eq!(id.to_uuid(), Some(VALUE));
    let upper = NoteID::new(TEXT.to_uppercase());
    assert_eq!(NoteID::from_uuid(upper.to_uuid().unwrap()).as_str(), TEXT);
    assert_eq!(Revision::from_uuid(1).as_str(), "00000000-0000-0000-0000-000000000001");
}

#[test]
fn unpack_uuid_locators() {
    let current = NoteLocator::Current(NoteID::new(TEXT.to_owned()));
    assert_eq!(current.unpack_uuid().ok(), Some((VALUE, None)));
    let specific = NoteLocator::Specific(NoteID::new(TEXT.to_owned()), Revision::from_uuid(7));
    assert_eq!(specific.unpack_uuid().ok(), Some((VALUE, Some(7))));
    let bad_rev = NoteLocator::Specific(NoteID::new(TEXT.to_owned()), Revision::new("r".to_owned()));
    match bad_rev.unpack_uuid() {
        Err(NoteStoreError::NotUuid(s)) => assert_eq!(s, "r"),
        _ => panic!("expected an error"),
    }
    let both_bad = NoteLocator::Specific(NoteID::new("n".to_owned()), Revision::new("r".to_owned()));
    match both_bad.unpack_uuid() {
        Err(NoteStoreError::NotUuid(s)) => assert_eq!(s, "n"),
        _ => panic!("expected an error"),
    }
}

#[test]
fn row_from_editable() {
    let body = format!("[a](notegraf:/note/{}) [b](notegraf:/note/{})", TEXT, TEXT);
    let n = PostgreSQLNoteEditable::first(1, 2, "title".to_owned(), MarkdownNote::new(body.clone()), metadata(vec!["x".to_owned()]));
    let row = PostgreSQLNoteRow::try_from(n).ok().unwrap();
    assert_eq!(row.id, 1);
    assert_eq!(row.revision, 2);
    assert_eq!(row.title, "title");
    assert_eq!(row.note_inner, body);
    assert_eq!(row.referents, vec![VALUE]);
    assert_eq!(row.parent, None);
    assert_eq!(row.metadata_tags, vec!["x".to_owned()]);
    assert_eq!(row.metadata_created_at, 10);
    let loc = written_location(&row);
    assert_eq!(loc.get_id().as_str(), "00000000-0000-0000-0000-000000000001");
    assert_eq!(loc.get_revision().unwrap().as_str(), "00000000-0000-0000-0000-000000000002");
}

#[test]
fn row_refuses_referent_not_uuid() {
    let n = PostgreSQLNoteEditable::first(1, 2, "t".to_owned(), MarkdownNote::new("[a](notegraf:/note/abc)".to_owned()), metadata(vec![]));
    match PostgreSQLNoteRow::try_from(n) {
        Err(NoteStoreError::NotUuid(s)) => assert_eq!(s, "abc"),
        _ => panic!("expected an error"),
    }
}

#[test]
fn plain_row_text_is_json() {
    let n = PostgreSQLNoteEditable::first(1, 2, "t".to_owned(), PlainNote::new("hi".to_owned()), metadata(vec![]));
    let row = PostgreSQLNoteRow::try_from(n).ok().unwrap();
    assert_eq!(row.note_inner, r#"{"body":"hi","referents":[]}"#);
    assert!(row.referents.is_empty());
}

#[test]
fn row_round_trip() {
    let n = PostgreSQLNoteEditable::first(5, 6, "t".to_owned(), MarkdownNote::new("b".to_owned()), metadata(vec!["a".to_owned(), "b".to_owned()]))
        .with_prev(9)
        .with_parent(8);
    let row = PostgreSQLNoteRow::try_from(n).ok().unwrap();
    let back = PostgreSQLNoteEditable::from_row(row, MarkdownNote::new("b".to_owned()));
    assert_eq!(back.id, 5);
    assert_eq!(back.revision, 6);
    assert_eq!(back.prev, Some(9));
    assert_eq!(back.parent, Some(8));
    assert_eq!(back.metadata.tags, vec!["a".to_owned(), "b".to_owned()]);
    assert_eq!(back.metadata.modified_at, 20);
}

#[test]
fn edits_and_prepared_revision() {
    let n = PostgreSQLNoteEditable::first(5, 6, "t".to_owned(), MarkdownNote::new("b".to_owned()), metadata(vec![]))
        .with_prev(9)
        .with_parent(8);
    let e = n.edited(Some("new".to_owned()), None, None);
    assert_eq!(e.title, "new");
    assert_eq!(e.note_inner.body(), "b");
    let kept = e.prepared(7, 99, false);
    assert_eq!(kept.revision, 7);
    assert_eq!(kept.metadata.modified_at, 99);
    assert_eq!(kept.metadata.created_at, 10);
    assert_eq!(kept.prev, Some(9));
    let back = kept.prepared(8, 100, true);
    assert_eq!(back.prev, None);
    assert_eq!(back.parent, None);
}

#[test]
fn update_and_delete_sources() {
    assert!(update_source(1, Some(2), false, true).is_ok());
    assert!(update_source(1, None, true, false).is_ok());
    match update_source(1, Some(2), false, false) {
        Err(NoteStoreError::UpdateOldRevision(id, rev)) => {
            assert_eq!(id.as_str(), "00000000-0000-0000-0000-000000000001");
            assert_eq!(rev.as_str(), "00000000-0000-0000-0000-000000000002");
        }
        _ => panic!("expected an error"),
    }
    let loc = NoteLocator::Specific(NoteID::new("n".to_owned()), Revision::new("r".to_owned()));
    assert!(deletion_source(&loc, true).is_ok());
    match deletion_source(&loc, false) {
        Err(NoteStoreError::DeleteOldRevision(id, rev)) => {
            assert_eq!(id.as_str(), "n");
            assert_eq!(rev.as_str(), "r");
        }
        _ => panic!("expected an error"),
    }
}

#[test]
fn deletion_relinks_neighbours() {
    let id = NoteID::new("n".to_owned());
    let mid = joined(Some(vec![NoteID::new("x".to_owned())]), Some(NoteID::new("p".to_owned())), vec![], vec![])
        .into_note(MarkdownNote::new("b".to_owned()));
    let (next, prev) = deletion_relink(&id, &mid).ok().unwrap().unwrap();
    assert_eq!(next.as_str(), "x");
    assert_eq!(prev.as_str(), "p");
    let last = joined(None, Some(NoteID::new("p".to_owned())), vec![], vec![]).into_note(MarkdownNote::new("b".to_owned()));
    assert!(deletion_relink(&id, &last).ok().unwrap().is_none());
    let parent = joined(None, None, vec![NoteID::new("c".to_owned())], vec![NoteID::new("q".to_owned())])
        .into_note(MarkdownNote::new("b".to_owned()));
    assert!(matches!(deletion_relink(&id, &parent), Err(NoteStoreError::HasBranches(_))));
    let referred = joined(None, None, vec![], vec![NoteID::new("q".to_owned())]).into_note(MarkdownNote::new("b".to_owned()));
    assert!(matches!(deletion_relink(&id, &referred), Err(NoteStoreError::HasReferences(_))));
}

#[test]
fn current_and_deleted_outcomes() {
    assert_eq!(current_revision_outcome(1, Some(3), true).ok().unwrap().as_str(), "00000000-0000-0000-0000-000000000003");
    assert!(matches!(current_revision_outcome(1, None, true), Err(NoteStoreError::NoteDeleted(_))));
    match current_revision_outcome(1, None, false) {
        Err(NoteStoreError::NoteNotExist(id)) => assert_eq!(id.as_str(), "00000000-0000-0000-0000-000000000001"),
        _ => panic!("expected an error"),
    }
    assert_eq!(deleted_outcome(1, Some(true)).ok(), Some(false));
    assert_eq!(deleted_outcome(1, Some(false)).ok(), Some(true));
    assert!(matches!(deleted_outcome(1, None), Err(NoteStoreError::NoteNotExist(_))));
}

#[test]
fn append_needs_last_note() {
    let id = NoteID::new("n".to_owned());
    let last = joined(None, None, vec![], vec![]).into_note(MarkdownNote::new("b".to_owned()));
    assert!(append_source(&id, &last).is_ok());
    let inner = joined(Some(vec![NoteID::new("x".to_owned())]), None, vec![], vec![]).into_note(MarkdownNote::new("b".to_owned()));
    match append_source(&id, &inner) {
        Err(NoteStoreError::ExistingNext(a, b)) => {
            assert_eq!(a.as_str(), "n");
            assert_eq!(b.as_str(), "x");
        }
        _ => panic!("expected an error"),
    }
}
