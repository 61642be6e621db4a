use notegraf::notetype::{MarkdownNote, NoteType, PlainNote};
use notegraf::NoteID;

#[test]
fn rewrite_url() {
    let id_old = NoteID::new("old".into());
    let id_new = NoteID::new("new".into());
    let old_url = "notegraf:/note/old";
    let new_url = MarkdownNote::change_note_url(old_url, &id_old, &id_new);
    assert_eq!(new_url.unwrap(), "notegraf:/note/new");
    assert_eq!(
        MarkdownNote::change_note_url("notegraf:/note/foo", &id_old, &id_new),
        None
    );
    assert_eq!(
        MarkdownNote::change_note_url("notegraf:/tag/old", &id_old, &id_new),
        None
    );
    assert_eq!(
        MarkdownNote::change_note_url("notegraf:/note/old/bar", &id_old, &id_new),
        None
    );
    assert_eq!(
        MarkdownNote::change_note_url("http://host/note/old", &id_old, &id_new),
        None
    );
}

#[test]
fn referent_markdown_link() {
    let note = MarkdownNote::new(r#"[foo](notegraf:/note/note-1)"#.into());
    let referents = note.get_referents().unwrap();
    assert_eq!(referents.len(), 1);
    assert_eq!(
        referents.iter().next().unwrap(),
        &NoteID::new("note-1".to_owned())
    );
}

#[test]
fn referent_markdown_autolink() {
    let note = MarkdownNote::new(r#"<notegraf:/note/note-1>"#.into());
    let referents = note.get_referents().unwrap();
    assert_eq!(referents.len(), 1);
    assert_eq!(
        referents.iter().next().unwrap(),
        &NoteID::new("note-1".to_owned())
    );
}

#[test]
fn rewrite_markdown_link() {
    let id_old = NoteID::new("old".into());
    let id_new = NoteID::new("new".into());
    let mut note = MarkdownNote::new(r#"[foo](notegraf:/note/old)"#.into());
    note.update_referent(id_old, id_new).unwrap();
    assert_eq!(note.body(), r#"[foo](notegraf:/note/new)"#)
}

#[test]
fn rewrite_markdown_autolink() {
    let id_old = NoteID::new("old".into());
    let id_new = NoteID::new("new".into());
    let mut note = MarkdownNote::new(r#"<notegraf:/note/old>"#.into());
    note.update_referent(id_old, id_new).unwrap();
    assert_eq!(note.body(), r#"<notegraf:/note/new>"#)
}

#[test]
fn retrieve_references() {
    let mut note = PlainNote::new("Foo".into());
    note.add_referent(NoteID::new("ID1".into()));
    note.add_referent(NoteID::new("ID2".into()));
    assert!(note
        .get_referents()
        .unwrap()
        .contains(&NoteID::new("ID1".into())));
    assert!(note
        .get_referents()
        .unwrap()
        .contains(&NoteID::new("ID2".into())));
}

#[test]
fn update_references() {
    let mut note = PlainNote::new("Foo".into());
    note.add_referent(NoteID::new("ID1".into()));
    note.add_referent(NoteID::new("ID2".into()));
    note.update_referent(NoteID::new("ID1".into()), NoteID::new("ID3".into()))
        .unwrap();
    assert!(note
        .get_referents()
        .unwrap()
        .contains(&NoteID::new("ID3".into())));
    assert!(note
        .get_referents()
        .unwrap()
        .contains(&NoteID::new("ID2".into())));
}

#[test]
fn dedup_references() {
    let mut note = PlainNote::new("Foo".into());
    note.add_referent(NoteID::new("ID1".into()));
    note.add_referent(NoteID::new("ID2".into()));
    note.add_referent(NoteID::new("ID2".into()));
    assert_eq!(note.get_referents().unwrap().len(), 2);
}

#[test]
fn update_missing_reference_fails_and_keeps_note() {
    let mut note = PlainNote::new("Foo".into());
    note.add_referent(NoteID::new("ID1".into()));
    assert!(note
        .update_referent(NoteID::new("ID9".into()), NoteID::new("ID3".into()))
        .is_err());
    let referents = note.get_referents().unwrap();
    assert_eq!(referents, vec![NoteID::new("ID1".into())]);
}

#[test]
fn plain_split_and_merge() {
    let mut note = PlainNote::new("HelloWorld".into());
    note.add_referent(NoteID::new("ID1".into()));
    let (a, b) = note.split_off(5);
    assert_eq!(a.body(), "Hello");
    assert_eq!(b.body(), "World");
    assert_eq!(a.get_referents().unwrap().len(), 1);
    assert_eq!(b.get_referents().unwrap().len(), 0);
    let merged = a.merge(b);
    assert_eq!(merged.body(), "HelloWorld");
    assert_eq!(merged.get_referents().unwrap(), vec![NoteID::new("ID1".into())]);
}

#[test]
fn markdown_link_to_other_scheme_is_no_referent() {
    let note = MarkdownNote::new("[a](http://host/note/x) and [b](notegraf:/note/y)".into());
    let referents = note.get_referents().unwrap();
    assert_eq!(referents, vec![NoteID::new("y".to_owned())]);
}

#[test]
fn markdown_rewrite_missing_referent_keeps_body() {
    let mut note = MarkdownNote::new("[foo](notegraf:/note/old)".into());
    let _ = note.update_referent(NoteID::new("other".into()), NoteID::new("new".into()));
    assert_eq!(note.body(), "[foo](notegraf:/note/old)");
}

#[test]
fn extract_note_id() {
    assert_eq!(
        MarkdownNote::extract_note_id_from_url("notegraf:/note/abc"),
        Some(NoteID::new("abc".to_owned()))
    );
    assert_eq!(MarkdownNote::extract_note_id_from_url("notegraf:/tag/abc"), None);
    assert_eq!(MarkdownNote::extract_note_id_from_url("not a url"), None);
}

#[test]
fn rewrite_markdown_keeps_other_links() {
    let id_old = NoteID::new("old".into());
    let id_new = NoteID::new("new".into());
    let mut note = MarkdownNote::new("see <notegraf:/note/old> and [x](notegraf:/note/other)".into());
    assert!(note.update_referent(id_old, id_new).is_ok());
    assert_eq!(note.body(), "see <notegraf:/note/new> and [x](notegraf:/note/other)");
}

#[test]
fn plain_json_escapes_control_characters() {
    let note = PlainNote::new("a\"\\\u{1}\n\t/é".to_owned());
    assert_eq!(note.to_json(), "{\"body\":\"a\\\"\\\\\\u0001\\n\\t/é\",\"referents\":[]}");
}
