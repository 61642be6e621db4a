//! Metadata of notes.
use crate::clock::now_timestamp;
use vstd::prelude::*;

verus! {

/// The schema version of the metadata this library writes.
pub const NOTE_METADATA_CURRENT_SCHEMA_VERSION: u64 = 0;

/// Metadata of a note revision. Times are nanoseconds since the Unix epoch (negative before it);
/// `custom_metadata` is a JSON text.
#[derive(Debug)]
pub struct NoteMetadata {
    pub schema_version: u64,
    pub created_at: i128,
    pub modified_at: i128,
    pub tags: Vec<String>,
    pub custom_metadata: String,
}

/// The view of [`NoteMetadata`].
pub struct MetadataView {
    pub schema_version: u64,
    pub created_at: i128,
    pub modified_at: i128,
    pub tags: Seq<Seq<char>>,
    pub custom_metadata: Seq<char>,
}

/// The texts of a vector of strings.
pub open spec fn texts_of(v: Seq<String>) -> Seq<Seq<char>> {
    v.map_values(|s: String| s@)
}

impl View for NoteMetadata {
    type V = MetadataView;

    open spec fn view(&self) -> MetadataView {
        MetadataView {
            schema_version: self.schema_version,
            created_at: self.created_at,
            modified_at: self.modified_at,
            tags: texts_of(self.tags@),
            custom_metadata: self.custom_metadata@,
        }
    }
}

/// The edits that a caller may make to the metadata of a note: `None` keeps
/// the field as it is.
#[derive(Debug)]
pub struct NoteMetadataEditable {
    pub tags: Option<Vec<String>>,
    pub custom_metadata: Option<String>,
}

/// The view of [`NoteMetadataEditable`].
pub struct EditableView {
    pub tags: Option<Seq<Seq<char>>>,
    pub custom_metadata: Option<Seq<char>>,
}

impl View for NoteMetadataEditable {
    type V = EditableView;

    open spec fn view(&self) -> EditableView {
        EditableView {
            tags: match &self.tags {
                Some(t) => Some(texts_of(t@)),
                None => None,
            },
            custom_metadata: match &self.custom_metadata {
                Some(c) => Some(c@),
                None => None,
            },
        }
    }
}

/// The distinct elements of `s`, in the order of their first occurrence.
pub open spec fn dedup(s: Seq<Seq<char>>) -> Seq<Seq<char>>
    decreases s.len(),
{
    if s.len() == 0 {
        s
    } else {
        let d = dedup(s.drop_last());
        if d.contains(s.last()) {
            d
        } else {
            d.push(s.last())
        }
    }
}

/// The JSON text of an absent custom metadata value.
pub open spec fn null_json() -> Seq<char> {
    seq!['n', 'u', 'l', 'l']
}

/// Metadata of a new note created at `now`.
pub open spec fn fresh_metadata(now: i128) -> MetadataView {
    MetadataView {
        schema_version: NOTE_METADATA_CURRENT_SCHEMA_VERSION,
        created_at: now,
        modified_at: now,
        tags: Seq::empty(),
        custom_metadata: null_json(),
    }
}

/// Metadata with the edits applied.
pub open spec fn applied(m: MetadataView, e: EditableView) -> MetadataView {
    MetadataView {
        tags: match e.tags {
            Some(t) => dedup(t),
            None => m.tags,
        },
        custom_metadata: match e.custom_metadata {
            Some(c) => c,
            None => m.custom_metadata,
        },
        ..m
    }
}

/// Metadata as it stands after a note is updated at `now`.
pub open spec fn updated(m: MetadataView, now: i128) -> MetadataView {
    MetadataView { schema_version: NOTE_METADATA_CURRENT_SCHEMA_VERSION, modified_at: now, ..m }
}

/// Whether `s` contains the text `t`.
pub fn contains_text(s: &Vec<String>, t: &String) -> (r: bool)
    ensures
        r == texts_of(s@).contains(t@),
{
    let mut i: usize = 0;
    while i < s.len()
        invariant
            i <= s.len(),
            forall|j: int| 0 <= j < i ==> s@[j]@ != t@,
        decreases s.len() - i,
    {
        if s[i] == *t {
            assert(texts_of(s@)[i as int] == t@);
            return true;
        }
        i += 1;
    }
    assert forall|j: int| 0 <= j < texts_of(s@).len() implies texts_of(s@)[j] != t@ by {
        assert(s@[j]@ != t@);
    }
    false
}

/// A copy of a vector of strings.
pub fn copy_texts(s: &Vec<String>) -> (r: Vec<String>)
    ensures
        texts_of(r@) == texts_of(s@),
{
    let mut r: Vec<String> = Vec::new();
    let mut i: usize = 0;
    while i < s.len()
        invariant
            i <= s.len(),
            texts_of(r@) == texts_of(s@).take(i as int),
        decreases s.len() - i,
    {
        let c = s[i].clone();
        proof {
            assert(texts_of(r@.push(c)) =~= texts_of(r@).push(c@));
            assert(texts_of(s@).take(i + 1) =~= texts_of(s@).take(i as int).push(s@[i as int]@));
        }
        r.push(c);
        i += 1;
    }
    assert(texts_of(s@).take(s.len() as int) =~= texts_of(s@));
    r
}

/// The distinct texts of `s`, in the order of their first occurrence.
pub fn dedup_texts(s: &Vec<String>) -> (r: Vec<String>)
    ensures
        texts_of(r@) == dedup(texts_of(s@)),
{
    let mut r: Vec<String> = Vec::new();
    let mut i: usize = 0;
    while i < s.len()
        invariant
            i <= s.len(),
            texts_of(r@) == dedup(texts_of(s@).take(i as int)),
        decreases s.len() - i,
    {
        let ghost t = texts_of(s@).take(i + 1);
        assert(t.drop_last() =~= texts_of(s@).take(i as int));
        if !contains_text(&r, &s[i]) {
            let c = s[i].clone();
            proof {
                assert(texts_of(r@.push(c)) =~= texts_of(r@).push(c@));
            }
            r.push(c);
        }
        i += 1;
    }
    assert(texts_of(s@).take(s.len() as int) =~= texts_of(s@));
    r
}

/// `dedup` gives a sequence without repetitions.
pub proof fn lemma_dedup_no_duplicates(s: Seq<Seq<char>>)
    ensures
        dedup(s).no_duplicates(),
        dedup(s).to_set() == s.to_set(),
    decreases s.len(),
{
    if s.len() > 0 {
        lemma_dedup_no_duplicates(s.drop_last());
        let d = dedup(s.drop_last());
        assert(s =~= s.drop_last().push(s.last()));
        s.drop_last().lemma_push_to_set_commute(s.last());
        if !d.contains(s.last()) {
            d.lemma_push_to_set_commute(s.last());
        } else {
            assert(d.to_set().insert(s.last()) =~= d.to_set());
        }
    } else {
        assert(s.to_set() =~= Set::empty());
    }
}

impl NoteMetadata {
    /// Metadata of a new note created at `now`.
    pub fn new_at(now: i128) -> (r: Self)
        ensures
            r@ == fresh_metadata(now),
    {
        let null_chars = vec!['n', 'u', 'l', 'l'];
        assert(null_chars@ =~= null_json());
        let custom_metadata = crate::text::string_of(&null_chars);
        let tags: Vec<String> = Vec::new();
        assert(texts_of(tags@) =~= Seq::empty());
        NoteMetadata {
            schema_version: NOTE_METADATA_CURRENT_SCHEMA_VERSION,
            created_at: now,
            modified_at: now,
            tags,
            custom_metadata,
        }
    }

    /// A copy of the metadata.
    pub fn duplicate(&self) -> (r: Self)
        ensures
            r@ == self@,
    {
        NoteMetadata {
            schema_version: self.schema_version,
            created_at: self.created_at,
            modified_at: self.modified_at,
            tags: copy_texts(&self.tags),
            custom_metadata: self.custom_metadata.clone(),
        }
    }

    /// New metadata with the given edits applied to the metadata of a new
    /// note created at `now`.
    pub fn from_editable_at(e: NoteMetadataEditable, now: i128) -> (r: Self)
        ensures
            r@ == applied(fresh_metadata(now), e@),
    {
        NoteMetadata::new_at(now).apply_editable(e)
    }

    /// New metadata with the given edits applied to the metadata of a new
    /// note created now.
    pub fn from_editable(e: NoteMetadataEditable) -> (r: Self)
        ensures
            exists|now: i128| r@ == applied(fresh_metadata(now), e@),
    {
        NoteMetadata::from_editable_at(e, now_timestamp())
    }

    /// The metadata with the edits applied; tags are deduplicated.
    pub fn apply_editable(self, e: NoteMetadataEditable) -> (r: Self)
        ensures
            r@ == applied(self@, e@),
    {
        let NoteMetadata { schema_version, created_at, modified_at, tags, custom_metadata } = self;
        let tags = match e.tags {
            Some(t) => dedup_texts(&t),
            None => tags,
        };
        let custom_metadata = match e.custom_metadata {
            Some(c) => c,
            None => custom_metadata,
        };
        NoteMetadata { schema_version, created_at, modified_at, tags, custom_metadata }
    }

    /// The metadata of the revision that an update at `now` creates.
    ///
    /// Metadata based on a newer schema cannot be updated.
    pub fn on_update_note_at(&self, now: i128) -> (r: Self)
        requires
            self.schema_version <= NOTE_METADATA_CURRENT_SCHEMA_VERSION,
        ensures
            r@ == updated(self@, now),
    {
        NoteMetadata {
            schema_version: NOTE_METADATA_CURRENT_SCHEMA_VERSION,
            created_at: self.created_at,
            modified_at: now,
            tags: copy_texts(&self.tags),
            custom_metadata: self.custom_metadata.clone(),
        }
    }

    /// The metadata of the revision that an update now creates.
    pub fn on_update_note(&self) -> (r: Self)
        requires
            self.schema_version <= NOTE_METADATA_CURRENT_SCHEMA_VERSION,
        ensures
            exists|now: i128| r@ == updated(self@, now),
    {
        self.on_update_note_at(now_timestamp())
    }
}

impl NoteMetadataEditable {
    /// Edits that change nothing.
    pub fn unchanged() -> (r: Self)
        ensures
            r@ == (EditableView { tags: None, custom_metadata: None }),
    {
        NoteMetadataEditable { tags: None, custom_metadata: None }
    }
}

impl Default for NoteMetadata {
    /// Metadata of a note created now.
    fn default() -> (r: Self)
        ensures
            exists|now: i128| r@ == fresh_metadata(now),
    {
        NoteMetadata::new_at(now_timestamp())
    }
}

} // verus!
