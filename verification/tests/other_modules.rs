use notegraf::api::{error_status, parse_tags, HttpStatus, NotePostData, NoteStoreEditArgument};
use notegraf::configuration::{
    parse_port, ConfigurationError, DatabaseSettings, NoteStoreType, Settings, StorePlan,
};
use notegraf::errors::{NoteStoreError, URLParseError};
use notegraf::note::{Note, NoteField, NoteFieldSelector, NoteSerializable};
use notegraf::notestore::postgresql::{
    deletion_outcome, full_text_query, get_note_query, search_query_parts, search_statement,
    PostgreSQLNoteRowJoined,
};
use notegraf::notestore::search::SearchRequest;
use notegraf::notetype::MarkdownNote;
use notegraf::order::key_order;
use notegraf::tagged;
use notegraf::tagged::NoteType as TaggedNoteType;
use notegraf::url::NotegrafURL;
use notegraf::{NoteID, NoteLocator, Revision};

#[test]
fn url_wrong_scheme() {
    let url = NotegrafURL::parse("http://host/note/note1");
    assert!(url.is_err());
    if let URLParseError::WrongScheme(s) = url.err().unwrap() {
        assert_eq!(s, "http");
    } else {
        assert!(false);
    }
}

#[test]
fn wrong_scheme() {
    let url = tagged::NotegrafURL::parse("http://host/note/note1");
    assert!(url.is_err());
    if let tagged::NotegrafURLParseError::WrongScheme(s) = url.err().unwrap() {
        assert_eq!(s, "http");
    } else {
        assert!(false);
    }
}

#[test]
fn url_round_trip_and_errors() {
    let u = NotegrafURL::parse("notegraf:/note/abc").unwrap();
    assert_eq!(u.to_url_string(), "notegraf:/note/abc");
    assert!(matches!(NotegrafURL::parse("no url"), Err(URLParseError::NotAURL(_))));
    assert!(matches!(
        NotegrafURL::parse("notegraf:/note/a/b"),
        Err(URLParseError::SyntaxError(_))
    ));
    assert!(matches!(
        NotegrafURL::parse("notegraf:/tag/a"),
        Err(URLParseError::SyntaxError(_))
    ));
    assert!(matches!(
        NotegrafURL::parse("notegraf:abc"),
        Err(URLParseError::CannotBeABase)
    ));
}

#[test]
fn tagged_url_parse() {
    let u = tagged::NotegrafURL::parse("notegraf:/tag/work").unwrap();
    assert!(matches!(&u, tagged::NotegrafURL::Tag(t) if t.as_str() == "work"));
    assert_eq!(u.to_url_string(), "notegraf:/tag/work");
    let n = tagged::NotegrafURL::parse("notegraf:/note/n1").unwrap();
    assert_eq!(n.to_url_string(), "notegraf:/note/n1");
    let e = tagged::NotegrafURL::parse("http://host/tag/x");
    assert!(matches!(e, Err(tagged::NotegrafURLParseError::WrongScheme(s)) if s == "http"));
}

#[test]
fn tagged_notes() {
    let mut p = tagged::PlainNote::new("body".to_owned());
    p.add_reference(NoteID::new("a".to_owned()));
    p.add_reference(NoteID::new("a".to_owned()));
    p.add_tag(tagged::Tag::new("t".to_owned()));
    assert_eq!(p.get_references().len(), 2);
    assert_eq!(p.get_tags().len(), 1);
    let mut m = tagged::MarkdownNote::new("# hi".to_owned());
    m.add_tag(tagged::Tag::new("t".to_owned()));
    m.add_tag(tagged::Tag::new("t".to_owned()));
    m.add_tag(tagged::Tag::new("u".to_owned()));
    assert_eq!(m.get_tags().len(), 2);
    let n = tagged::Note::new(p, NoteID::new("n".to_owned()), Revision::new("r".to_owned()), None);
    assert_eq!(n.id.as_str(), "n");
    assert!(n.created_at > 0);
}

#[test]
fn note_query_text() {
    let q = get_note_query(vec![], vec![], vec![], vec![], vec![], vec![], None);
    assert!(q.starts_with("\n        SELECT\n            revision.revision,"));
    assert!(!q.contains("WHERE"));
    assert!(!q.contains("LIMIT"));
    let q = get_note_query(
        vec!["a AS b".to_owned()],
        vec!["JOIN x".to_owned()],
        vec!["c1".to_owned(), "c2".to_owned()],
        vec!["g".to_owned()],
        vec!["h1".to_owned(), "h2".to_owned()],
        vec!["o1".to_owned(), "o2".to_owned()],
        Some(25),
    );
    assert!(q.contains("AS is_current,\na AS b\n        FROM"));
    assert!(q.contains("JOIN x\n        WHERE c1 AND c2\n        GROUP BY revision.revision, cr.current_revision, g\n        HAVING h1 AND h2\n        ORDER BY o1, o2\n        LIMIT 25\n        "));
}

#[test]
fn search_statements() {
    let sr: SearchRequest = "!orphan #t".into();
    let p = search_query_parts(&sr);
    assert_eq!(
        p.conditions,
        vec![
            "cr.current_revision IS NOT NULL",
            "revision.prev IS NULL",
            "revision.parent IS NULL",
            "revision.metadata_tags @> $1"
        ]
    );
    assert_eq!(p.orders, vec!["revision.metadata_created_at DESC"]);
    assert_eq!(p.havings.len(), 1);
    assert!(p.columns.is_empty());
    assert_eq!(p.limit, Some(10));
    let sr: SearchRequest = "fizz buzz !notag".into();
    let p = search_query_parts(&sr);
    assert_eq!(p.orders, vec!["rank DESC"]);
    assert_eq!(p.joins.len(), 1);
    assert_eq!(p.conditions.last().unwrap(), "revision.metadata_tags = '{}'");
    assert_eq!(full_text_query(&sr), Some("fizz & buzz".to_owned()));
    assert!(search_statement(&sr).contains("ORDER BY rank DESC"));
    let empty: SearchRequest = "".into();
    assert_eq!(full_text_query(&empty), None);
}

#[test]
fn deletion_outcomes() {
    let loc = NoteLocator::Current(NoteID::new("n".to_owned()));
    assert!(deletion_outcome(&loc, 1).is_ok());
    assert!(matches!(deletion_outcome(&loc, 0), Err(NoteStoreError::NoteNotExist(_))));
    let loc = loc.at_revision(&Revision::new("r".to_owned()));
    assert!(matches!(deletion_outcome(&loc, 2), Err(NoteStoreError::RevisionNotExist(_, _))));
}

#[test]
fn row_into_note() {
    let row = PostgreSQLNoteRowJoined {
        revision: Revision::new("r1".to_owned()),
        id: NoteID::new("n1".to_owned()),
        title: "t".to_owned(),
        note_inner: "body".to_owned(),
        parent: None,
        branches: Some(vec![NoteID::new("b".to_owned()), NoteID::new("b".to_owned())]),
        prev: Some(NoteID::new("p".to_owned())),
        next: Some(vec![NoteID::new("x".to_owned())]),
        referents: vec![],
        references: None,
        metadata_schema_version: 0,
        metadata_created_at: 3,
        metadata_modified_at: 4,
        metadata_tags: vec!["a".to_owned(), "a".to_owned()],
        metadata_custom_metadata: "null".to_owned(),
        is_current: true,
    };
    let n = row.into_note(MarkdownNote::new("body".to_owned()));
    assert_eq!(n.get_branches().len(), 1);
    assert_eq!(n.get_next(), Some(NoteID::new("x".to_owned())));
    assert_eq!(n.get_prev(), Some(NoteID::new("p".to_owned())));
    assert!(n.get_references().is_empty());
    assert_eq!(n.get_metadata().tags, vec!["a".to_owned()]);
    assert!(n.is_current());
}

#[test]
fn configuration_decisions() {
    assert_eq!(parse_port("5432"), Some(5432));
    assert_eq!(parse_port("+80"), Some(80));
    assert_eq!(parse_port("65536"), None);
    assert_eq!(parse_port(""), None);
    let db = DatabaseSettings {
        port: "5432".to_owned(),
        host: "localhost".to_owned(),
        name: "notegraf".to_owned(),
        username: Some("u".to_owned()),
        password: None,
    };
    assert!(matches!(db.options(), Err(ConfigurationError::MissingPassword)));
    let db = DatabaseSettings { password: Some("p".to_owned()), ..db };
    let o = db.options().unwrap();
    assert_eq!(o.port, 5432);
    assert_eq!(o.database.as_deref(), Some("notegraf"));
    assert_eq!(db.options_without_db().unwrap().database, None);
    let bad = DatabaseSettings { port: "x".to_owned(), ..db };
    assert!(matches!(bad.options(), Err(ConfigurationError::BadPort)));
    assert_eq!(ConfigurationError::BadPort.message(), "Failed to parse port number");
    let settings = Settings {
        database: None,
        host: "localhost".to_owned(),
        port: 8000,
        debug: false,
        notestoretype: NoteStoreType::PostgreSQL,
        populatetestdata: false,
        otlpendpoint: None,
        loglevel: None,
    };
    assert!(matches!(settings.store_plan(false), Err(ConfigurationError::MissingDatabase)));
    assert_eq!(settings.address(), "localhost:8000");
    let settings = Settings { notestoretype: NoteStoreType::InMemory, ..settings };
    assert!(matches!(settings.store_plan(true), Ok(StorePlan::InMemory)));
}

#[test]
fn api_decisions() {
    assert_eq!(parse_tags(" a, b ,, a,\tc "), vec!["a", "b", "c"]);
    assert!(parse_tags("").is_empty());
    assert_eq!(
        error_status(&NoteStoreError::NoteNotExist(NoteID::new("n".to_owned()))),
        HttpStatus::NotFound
    );
    assert_eq!(
        error_status(&NoteStoreError::HasBranches(NoteID::new("n".to_owned()))),
        HttpStatus::Conflict
    );
    assert_eq!(
        error_status(&NoteStoreError::ParseError("x".to_owned())),
        HttpStatus::BadRequest
    );
    let data = NotePostData {
        title: "t".to_owned(),
        note_inner: "b".to_owned(),
        metadata_tags: "x, y".to_owned(),
        metadata_custom_metadata: "{ \"b\": 1, \"a\": [true] }".to_owned(),
    };
    let a = NoteStoreEditArgument::from_post(data).unwrap();
    assert_eq!(a.metadata.tags, Some(vec!["x".to_owned(), "y".to_owned()]));
    assert_eq!(a.metadata.custom_metadata.as_deref(), Some("{\"a\":[true],\"b\":1}"));
    let bad = NotePostData {
        title: "t".to_owned(),
        note_inner: "b".to_owned(),
        metadata_tags: "".to_owned(),
        metadata_custom_metadata: "{".to_owned(),
    };
    assert!(NoteStoreEditArgument::from_post(bad).is_err());
}

#[test]
fn error_messages() {
    let e = NoteStoreError::RevisionNotExist(NoteID::new("n".to_owned()), Revision::new("r".to_owned()));
    assert_eq!(e.message(), "revision`r` of note `n` doesn't exist");
    let e = NoteStoreError::ExistingNext(NoteID::new("a".to_owned()), NoteID::new("b".to_owned()));
    assert_eq!(
        e.message(),
        "cannot append note `b` to note `a`, because note `a` is not the last note in a sequence"
    );
}

#[test]
fn key_order_is_stable() {
    assert_eq!(key_order(&vec![5, 1, 5, 0]), vec![3, 1, 0, 2]);
    assert!(key_order(&vec![]).is_empty());
}

#[test]
fn field_selection() {
    let s = NoteFieldSelector::default();
    assert_eq!(s.fields.len(), 11);
    assert_eq!(s.fields[0].key(), "title");
    assert_eq!(NoteField::Metadata.key(), "metadata");
    let ns = NoteSerializable::all_fields(3u8);
    assert_eq!(ns.s.fields.len(), 11);
}

#[test]
fn not_a_url_keeps_the_url_crate_error() {
    match NotegrafURL::parse("note-1") {
        Err(URLParseError::NotAURL(e)) => assert_eq!(e, url::ParseError::RelativeUrlWithoutBase),
        _ => panic!("expected an error"),
    }
    match tagged::NotegrafURL::parse("http://") {
        Err(tagged::NotegrafURLParseError::NotAURL(e)) => assert_eq!(e, url::ParseError::EmptyHost),
        _ => panic!("expected an error"),
    }
}
