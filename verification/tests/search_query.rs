use notegraf::notestore::search::{SearchRequest, DEFAULT_LIMIT};

#[test]
fn empty_is_recent() {
    let sr: SearchRequest = "".into();
    assert!(sr.sort_by_created_at());
}

#[test]
fn whitespace_is_recent() {
    let sr: SearchRequest = "  ".into();
    assert!(sr.sort_by_created_at());
}

#[test]
fn one_tag() {
    let sr: SearchRequest = "#foo".into();
    assert!(!sr.tags.is_empty());
    assert_eq!(sr.tags, vec!["foo".to_owned()]);
}

#[test]
fn two_tags() {
    let sr: SearchRequest = "#foo  #bar ".into();
    assert!(!sr.tags.is_empty());
    assert_eq!(sr.tags, vec!["foo".to_owned(), "bar".to_owned()]);
}

#[test]
fn one_lexeme() {
    let sr: SearchRequest = "fizz ".into();
    assert!(!sr.sort_by_created_at());
    assert!(sr.tags.is_empty());
    assert!(!sr.lexemes.is_empty());
    assert_eq!(sr.lexemes, vec!["fizz".to_owned()]);
}

#[test]
fn lexemes() {
    let sr: SearchRequest = "fizz buzz ".into();
    assert!(!sr.sort_by_created_at());
    assert!(sr.tags.is_empty());
    assert!(!sr.lexemes.is_empty());
    assert_eq!(sr.lexemes, vec!["fizz".to_owned(), "buzz".to_owned()]);
}

#[test]
fn orphan_recent() {
    let sr: SearchRequest = "!orphan".into();
    assert!(sr.sort_by_created_at());
    assert!(sr.orphan);
}

#[test]
fn orphan_lexemes() {
    let sr: SearchRequest = "!orphan foo".into();
    assert!(!sr.sort_by_created_at());
    assert_eq!(sr.lexemes, vec!["foo".to_owned()]);
    assert!(sr.orphan);
}

#[test]
fn orphan_mixed() {
    let sr: SearchRequest = "!orphan foo #bar".into();
    assert!(!sr.sort_by_created_at());
    assert_eq!(sr.lexemes, vec!["foo".to_owned()]);
    assert_eq!(sr.tags, vec!["bar".to_owned()]);
    assert!(sr.orphan);
}

#[test]
fn empty_limit() {
    let sr: SearchRequest = "".into();
    assert_eq!(sr.limit, Some(DEFAULT_LIMIT));
}

#[test]
fn empty_limit_override() {
    let sr: SearchRequest = "!limit=32".into();
    assert_eq!(sr.limit, Some(32));
}

#[test]
fn tag_only_limit() {
    let sr: SearchRequest = "#tag".into();
    assert_eq!(sr.limit, Some(DEFAULT_LIMIT));
}

#[test]
fn tag_only_limit_override() {
    let sr: SearchRequest = "!limit=32 #tag".into();
    assert_eq!(sr.limit, Some(32));
}

#[test]
fn lexeme_only_limit() {
    let sr: SearchRequest = "foo".into();
    assert_eq!(sr.limit, None);
}

#[test]
fn lexeme_only_limit_override() {
    let sr: SearchRequest = "foo !limit=5".into();
    assert_eq!(sr.limit, Some(5));
}

#[test]
fn exclude_lexemes() {
    let sr: SearchRequest = "-foo bar".into();
    assert_eq!(sr.lexemes, vec!["bar".to_owned()]);
    assert_eq!(sr.lexemes_excluded, vec!["foo".to_owned()]);
}

#[test]
fn exclude_tags() {
    let sr: SearchRequest = "-#foo #bar".into();
    assert_eq!(sr.tags, vec!["bar".to_owned()]);
    assert_eq!(sr.tags_excluded, vec!["foo".to_owned()]);
}

#[test]
fn nolimit() {
    let sr: SearchRequest = "!nolimit".into();
    assert_eq!(sr.limit, None);
}

#[test]
fn nolimit_higher_precedence() {
    let sr: SearchRequest = "!limit=512 !nolimit".into();
    assert_eq!(sr.limit, None);

    let sr: SearchRequest = "!nolimit !limit=512".into();
    assert_eq!(sr.limit, None);
}

#[test]
fn bad_limit_means_no_limit() {
    let sr: SearchRequest = "!limit=abc #tag".into();
    assert_eq!(sr.limit, Some(DEFAULT_LIMIT));
    let sr: SearchRequest = "foo !limit=abc".into();
    assert_eq!(sr.limit, None);
    let sr: SearchRequest = "!limit=+7".into();
    assert_eq!(sr.limit, Some(7));
}

#[test]
fn last_limit_wins() {
    let sr: SearchRequest = "!limit=3 !limit=4".into();
    assert_eq!(sr.limit, Some(4));
}

#[test]
fn notag_modifier() {
    let sr: SearchRequest = "!notag world".into();
    assert!(sr.no_tag);
    assert_eq!(sr.lexemes, vec!["world".to_owned()]);
    assert!(!sr.orphan);
}
