//! A simpler note model: a note's content carries its own references and
//! tags, and a note records when it was created and last modified. Its URLs
//! name notes and tags. Its store keeps the children of a note in step
//! with the parents of notes.
use crate::clock::now_timestamp;
use crate::note::{NoteID, Revision};
use crate::notetype::{contains_id, ids_of};
use crate::text::push_all;
use crate::url::{parse_url, parsed_view, url_parse_outcome, UrlParts, UrlPartsView};
use vstd::prelude::*;

pub mod store;

pub use crate::notetype::markdown::MarkdownNoteError;

verus! {

/// Tags of notes.
#[derive(Debug, PartialEq, Eq, Hash)]
pub struct Tag {
    tag: String,
}

impl View for Tag {
    type V = Seq<char>;

    closed spec fn view(&self) -> Seq<char> {
        self.tag@
    }
}

impl Clone for Tag {
    fn clone(&self) -> (r: Self)
        ensures
            r@ == self@,
    {
        Tag { tag: self.tag.clone() }
    }
}

impl Tag {
    /// Wrap a tag.
    pub fn new(tag: String) -> (r: Self)
        ensures
            r@ == tag@,
    {
        Tag { tag }
    }

    /// The tag as text.
    pub fn as_str(&self) -> (r: &str)
        ensures
            r@ == self@,
    {
        self.tag.as_str()
    }

    /// Whether two tags are the same.
    pub fn same(&self, other: &Tag) -> (r: bool)
        ensures
            r == (self@ == other@),
    {
        self.tag == other.tag
    }
}

/// The texts of a sequence of tags.
pub open spec fn tag_texts(s: Seq<Tag>) -> Seq<Seq<char>> {
    s.map_values(|t: Tag| t@)
}

/// Whether `v` holds the tag `t`.
fn contains_tag(v: &Vec<Tag>, t: &Tag) -> (r: bool)
    ensures
        r == tag_texts(v@).contains(t@),
{
    let mut i: usize = 0;
    while i < v.len()
        invariant
            i <= v.len(),
            forall|j: int| 0 <= j < i ==> v@[j]@ != t@,
        decreases v.len() - i,
    {
        if v[i].same(t) {
            assert(tag_texts(v@)[i as int] == t@);
            return true;
        }
        i += 1;
    }
    assert forall|j: int| 0 <= j < tag_texts(v@).len() implies tag_texts(v@)[j] != t@ by {
        assert(v@[j]@ != t@);
    }
    false
}

/// A copy of a vector of tags.
fn copy_tags(v: &Vec<Tag>) -> (r: Vec<Tag>)
    ensures
        tag_texts(r@) == tag_texts(v@),
{
    let mut r: Vec<Tag> = Vec::new();
    let mut i: usize = 0;
    while i < v.len()
        invariant
            i <= v.len(),
            tag_texts(r@) == tag_texts(v@).take(i as int),
        decreases v.len() - i,
    {
        let c = v[i].clone();
        proof {
            assert(tag_texts(r@.push(c)) =~= tag_texts(r@).push(c@));
            assert(tag_texts(v@).take(i + 1) =~= tag_texts(v@).take(i as int).push(v@[i as int]@));
        }
        r.push(c);
        i += 1;
    }
    assert(tag_texts(v@).take(v.len() as int) =~= tag_texts(v@));
    r
}

/// The content of a note, which knows the notes it refers to and its tags.
pub trait NoteType: View + Sized {
    /// The notes a content refers to, in order.
    spec fn references_of(v: <Self as View>::V) -> Seq<Seq<char>>;

    /// The tags of a content, in order.
    spec fn tags_of(v: <Self as View>::V) -> Seq<Seq<char>>;

    /// The notes this content refers to.
    fn get_references(&self) -> (r: Vec<NoteID>)
        ensures
            ids_of(r@) == Self::references_of(self@),
    ;

    /// The tags of this content.
    fn get_tags(&self) -> (r: Vec<Tag>)
        ensures
            tag_texts(r@) == Self::tags_of(self@),
    ;

    /// A copy of the content.
    fn duplicate(&self) -> (r: Self)
        ensures
            r@ == self@,
    ;
}

/// A note: its content, its parent and children, and the times
/// (nanoseconds since the Unix epoch) at which it was created and last
/// modified. The children are each listed once.
#[derive(Debug)]
pub struct Note<T> {
    pub note_inner: T,
    pub id: NoteID,
    pub revision: Revision,
    pub parent: Option<NoteID>,
    pub children: Vec<NoteID>,
    pub created_at: i128,
    pub modified_at: i128,
}

impl<T: NoteType> Note<T> {
    /// A note created now, with the given content, identifier, revision and
    /// parent, and no children. Both times are read from the clock, one after
    /// the other.
    pub fn new(note_inner: T, id: NoteID, revision: Revision, parent: Option<NoteID>) -> (r: Self)
        ensures
            r.note_inner == note_inner,
            r.id == id,
            r.revision == revision,
            r.parent == parent,
            r.children@.len() == 0,
    {
        let created_at = now_timestamp();
        let modified_at = now_timestamp();
        Note { note_inner, id, revision, parent, children: Vec::new(), created_at, modified_at }
    }
}

/// A note of plain text, with the notes it refers to and its tags, each in
/// the order in which they were added.
#[derive(Debug)]
pub struct PlainNote {
    body: String,
    references: Vec<NoteID>,
    tags: Vec<Tag>,
}

/// The view of a [`PlainNote`].
pub struct PlainNoteView {
    pub body: Seq<char>,
    pub references: Seq<Seq<char>>,
    pub tags: Seq<Seq<char>>,
}

impl View for PlainNote {
    type V = PlainNoteView;

    closed spec fn view(&self) -> PlainNoteView {
        PlainNoteView {
            body: self.body@,
            references: ids_of(self.references@),
            tags: tag_texts(self.tags@),
        }
    }
}

impl PlainNote {
    /// A note with the given body, no references and no tags.
    pub fn new(body: String) -> (r: Self)
        ensures
            r@.body == body@,
            r@.references == Seq::<Seq<char>>::empty(),
            r@.tags == Seq::<Seq<char>>::empty(),
    {
        let r = PlainNote { body, references: Vec::new(), tags: Vec::new() };
        assert(r@.references =~= Seq::<Seq<char>>::empty());
        assert(r@.tags =~= Seq::<Seq<char>>::empty());
        r
    }

    /// Adds a reference to `referent` at the end.
    pub fn add_reference(&mut self, referent: NoteID)
        ensures
            final(self)@.body == old(self)@.body,
            final(self)@.references == old(self)@.references.push(referent@),
            final(self)@.tags == old(self)@.tags,
    {
        let ghost before = self.references@;
        self.references.push(referent);
        assert(ids_of(self.references@) =~= ids_of(before).push(referent@));
    }

    /// Adds a tag at the end.
    pub fn add_tag(&mut self, tag: Tag)
        ensures
            final(self)@.body == old(self)@.body,
            final(self)@.references == old(self)@.references,
            final(self)@.tags == old(self)@.tags.push(tag@),
    {
        let ghost before = self.tags@;
        self.tags.push(tag);
        assert(tag_texts(self.tags@) =~= tag_texts(before).push(tag@));
    }
}

impl NoteType for PlainNote {
    open spec fn references_of(v: PlainNoteView) -> Seq<Seq<char>> {
        v.references
    }

    open spec fn tags_of(v: PlainNoteView) -> Seq<Seq<char>> {
        v.tags
    }

    fn get_references(&self) -> (r: Vec<NoteID>) {
        crate::notetype::copy_ids(&self.references)
    }

    fn get_tags(&self) -> (r: Vec<Tag>) {
        copy_tags(&self.tags)
    }

    fn duplicate(&self) -> (r: Self) {
        let r = PlainNote {
            body: self.body.clone(),
            references: crate::notetype::copy_ids(&self.references),
            tags: copy_tags(&self.tags),
        };
        r
    }
}

/// A note in Markdown, with a set of tags.
#[derive(Debug)]
pub struct MarkdownNote {
    body: String,
    tags: Vec<Tag>,
}

/// The view of a [`MarkdownNote`]: its body and its tags, each once.
pub struct MarkdownNoteView {
    pub body: Seq<char>,
    pub tags: Seq<Seq<char>>,
}

impl View for MarkdownNote {
    type V = MarkdownNoteView;

    closed spec fn view(&self) -> MarkdownNoteView {
        MarkdownNoteView { body: self.body@, tags: tag_texts(self.tags@) }
    }
}

impl MarkdownNote {
    #[verifier::type_invariant]
    spec fn tags_distinct(self) -> bool {
        tag_texts(self.tags@).no_duplicates()
    }

    /// A note with the given body and no tags.
    pub fn new(body: String) -> (r: Self)
        ensures
            r@.body == body@,
            r@.tags == Seq::<Seq<char>>::empty(),
    {
        let r = MarkdownNote { body, tags: Vec::new() };
        assert(r@.tags =~= Seq::<Seq<char>>::empty());
        r
    }

    /// Adds a tag, unless the note has it already.
    pub fn add_tag(&mut self, tag: Tag)
        ensures
            final(self)@.body == old(self)@.body,
            final(self)@.tags == (if old(self)@.tags.contains(tag@) {
                old(self)@.tags
            } else {
                old(self)@.tags.push(tag@)
            }),
            final(self)@.tags.no_duplicates(),
    {
        proof {
            use_type_invariant(&*self);
        }
        if !contains_tag(&self.tags, &tag) {
            let mut tags: Vec<Tag> = Vec::new();
            std::mem::swap(&mut tags, &mut self.tags);
            let ghost before = tags@;
            tags.push(tag);
            proof {
                assert(tag_texts(tags@) =~= tag_texts(before).push(tag@));
                let t = tag_texts(tags@);
                assert forall|a: int, b: int| 0 <= a < b < t.len() implies t[a] != t[b] by {
                    if b == t.len() - 1 {
                        assert(tag_texts(before).contains(t[a]));
                    }
                }
            }
            self.tags = tags;
        }
        proof {
            use_type_invariant(&*self);
        }
    }

    /// The tags of the note, each once.
    pub fn get_tags(&self) -> (r: Vec<Tag>)
        ensures
            tag_texts(r@) == self@.tags,
    {
        copy_tags(&self.tags)
    }
}

/// Error type for Notegraf URL parsing.
#[derive(Debug)]
pub enum NotegrafURLParseError {
    /// Not a valid URL: the `url` crate cannot parse it.
    NotAURL(url::ParseError),
    /// Wrong URL scheme, such as HTTP.
    WrongScheme(String),
    /// The URL cannot be a base, such as a base64 encoded image.
    CannotBeABase,
    /// Not a valid Notegraf URL.
    ///
    /// For example, the first part of the URL might not have any of the expected value.
    SyntaxError(String),
}

/// URL type for Notegraf: a note or a tag.
#[derive(Debug)]
pub enum NotegrafURL {
    Note(NoteID),
    Tag(Tag),
}

/// The view of the outcome of parsing a Notegraf URL.
pub enum TaggedUrlOutcome {
    Note(Seq<char>),
    Tag(Seq<char>),
    NotAURL(url::ParseError),
    WrongScheme(Seq<char>),
    CannotBeABase,
    SyntaxError(Seq<char>),
}

/// The view of a parse outcome.
pub open spec fn tagged_outcome_of(r: Result<NotegrafURL, NotegrafURLParseError>) -> TaggedUrlOutcome {
    match r {
        Ok(NotegrafURL::Note(id)) => TaggedUrlOutcome::Note(id@),
        Ok(NotegrafURL::Tag(t)) => TaggedUrlOutcome::Tag(t@),
        Err(NotegrafURLParseError::NotAURL(e)) => TaggedUrlOutcome::NotAURL(e),
        Err(NotegrafURLParseError::WrongScheme(s)) => TaggedUrlOutcome::WrongScheme(s@),
        Err(NotegrafURLParseError::CannotBeABase) => TaggedUrlOutcome::CannotBeABase,
        Err(NotegrafURLParseError::SyntaxError(s)) => TaggedUrlOutcome::SyntaxError(s@),
    }
}

/// How a parsed URL reads as a Notegraf URL: `notegraf:/note/<id>` or `notegraf:/tag/<tag>`.
pub open spec fn tagged_outcome(parsed: Result<UrlPartsView, url::ParseError>) -> TaggedUrlOutcome {
    match parsed {
        Err(e) => TaggedUrlOutcome::NotAURL(e),
        Ok(p) => if p.scheme != "notegraf"@ {
            TaggedUrlOutcome::WrongScheme(p.scheme)
        } else {
            match p.path_segments {
                None => TaggedUrlOutcome::CannotBeABase,
                Some(parts) => if parts.len() != 2 {
                    TaggedUrlOutcome::SyntaxError("URL has more than two parts."@)
                } else if parts[0] == "note"@ {
                    TaggedUrlOutcome::Note(parts[1])
                } else if parts[0] == "tag"@ {
                    TaggedUrlOutcome::Tag(parts[1])
                } else {
                    TaggedUrlOutcome::SyntaxError("First part of the URL not recognized."@)
                },
            }
        },
    }
}

impl NotegrafURL {
    /// Read a parsed URL as a Notegraf URL.
    pub fn from_parsed(parsed: Result<UrlParts, url::ParseError>) -> (r: Result<Self, NotegrafURLParseError>)
        ensures
            tagged_outcome_of(r) == tagged_outcome(parsed_view(parsed)),
    {
        let parts = match parsed {
            Ok(p) => p,
            Err(e) => return Err(NotegrafURLParseError::NotAURL(e)),
        };
        let expected = "notegraf".to_owned();
        if parts.scheme != expected {
            return Err(NotegrafURLParseError::WrongScheme(parts.scheme));
        }
        let segments = match parts.path_segments {
            Some(p) => p,
            None => {
                return Err(NotegrafURLParseError::CannotBeABase);
            },
        };
        if segments.len() != 2 {
            return Err(NotegrafURLParseError::SyntaxError("URL has more than two parts.".to_owned()));
        }
        let note_word = "note".to_owned();
        let tag_word = "tag".to_owned();
        if segments[0] == note_word {
            Ok(NotegrafURL::Note(NoteID::new(segments[1].clone())))
        } else if segments[0] == tag_word {
            Ok(NotegrafURL::Tag(Tag::new(segments[1].clone())))
        } else {
            Err(NotegrafURLParseError::SyntaxError("First part of the URL not recognized.".to_owned()))
        }
    }

    /// Parse a string into a Notegraf URL.
    pub fn parse(link: &str) -> (r: Result<Self, NotegrafURLParseError>)
        ensures
            tagged_outcome_of(r) == tagged_outcome(url_parse_outcome(link@)),
    {
        NotegrafURL::from_parsed(parse_url(link))
    }

    /// The text of the URL: `notegraf:/note/<id>` or `notegraf:/tag/<tag>`.
    pub fn to_url_string(&self) -> (r: String)
        ensures
            match self {
                NotegrafURL::Note(id) => r@ == "notegraf:/note/"@ + id@,
                NotegrafURL::Tag(t) => r@ == "notegraf:/tag/"@ + t@,
            },
    {
        match self {
            NotegrafURL::Note(id) => {
                let mut s = "notegraf:/note/".to_owned();
                push_all(&mut s, id.as_str());
                s
            },
            NotegrafURL::Tag(t) => {
                let mut s = "notegraf:/tag/".to_owned();
                push_all(&mut s, t.as_str());
                s
            },
        }
    }
}

} // verus!
