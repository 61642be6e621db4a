//! Types of note contents.
use crate::note::NoteID;
use vstd::prelude::*;

pub mod cmark;
pub mod markdown;
pub mod plain;


pub use markdown::MarkdownNote;
pub use plain::PlainNote;

verus! {

/// The texts of a sequence of note identifiers.
pub open spec fn ids_of(s: Seq<NoteID>) -> Seq<Seq<char>> {
    s.map_values(|n: NoteID| n@)
}

/// The content of a note, of a kind chosen by the user of a note store.
pub trait NoteType: View + Sized {
    type Error;

    /// Whether the notes referred to by a content can be read from it.
    spec fn readable(v: <Self as View>::V) -> bool;

    /// The identifiers of the notes a content refers to.
    spec fn referent_ids(v: <Self as View>::V) -> Set<Seq<char>>;

    /// The text of a content that searches match against.
    spec fn text_of(v: <Self as View>::V) -> Seq<char>;

    /// The text a content is stored as.
    spec fn stored_text(v: <Self as View>::V) -> Seq<char>;

    /// The notes this content refers to, each once.
    fn get_referents(&self) -> (r: Result<Vec<NoteID>, Self::Error>)
        ensures
            r is Ok <==> Self::readable(self@),
            r matches Ok(v) ==> ids_of(v@).no_duplicates() && ids_of(v@).to_set()
                == Self::referent_ids(self@),
    ;

    /// Make the content refer to `new_referent` where it referred to `old_referent`.
    fn update_referent(&mut self, old_referent: NoteID, new_referent: NoteID) -> Result<
        (),
        Self::Error,
    >;

    /// A copy of the content.
    fn duplicate(&self) -> (r: Self)
        ensures
            r@ == self@,
    ;

    /// The text of the content that searches match against.
    fn search_text(&self) -> (r: String)
        ensures
            r@ == Self::text_of(self@),
    ;

    /// The text the content is stored as.
    fn to_text(&self) -> (r: String)
        ensures
            r@ == Self::stored_text(self@),
    ;

    /// A description of an error, for error reports.
    fn error_message(e: &Self::Error) -> String;
}

/// A copy of a vector of note identifiers.
pub fn copy_ids(v: &Vec<NoteID>) -> (r: Vec<NoteID>)
    ensures
        ids_of(r@) == ids_of(v@),
{
    let mut r: Vec<NoteID> = Vec::new();
    let mut i: usize = 0;
    while i < v.len()
        invariant
            i <= v.len(),
            ids_of(r@) == ids_of(v@).take(i as int),
        decreases v.len() - i,
    {
        let c = v[i].clone();
        proof {
            assert(ids_of(r@.push(c)) =~= ids_of(r@).push(c@));
            assert(ids_of(v@).take(i + 1) =~= ids_of(v@).take(i as int).push(v@[i as int]@));
        }
        r.push(c);
        i += 1;
    }
    assert(ids_of(v@).take(v.len() as int) =~= ids_of(v@));
    r
}

/// Whether `v` holds the identifier `id`.
pub fn contains_id(v: &Vec<NoteID>, id: &NoteID) -> (r: bool)
    ensures
        r == ids_of(v@).contains(id@),
{
    let mut i: usize = 0;
    while i < v.len()
        invariant
            i <= v.len(),
            forall|j: int| 0 <= j < i ==> v@[j]@ != id@,
        decreases v.len() - i,
    {
        if v[i].same(id) {
            assert(ids_of(v@)[i as int] == id@);
            return true;
        }
        i += 1;
    }
    assert forall|j: int| 0 <= j < ids_of(v@).len() implies ids_of(v@)[j] != id@ by {
        assert(v@[j]@ != id@);
    }
    false
}

/// Adds `id` to `v` unless it is there already.
pub fn insert_id(v: &mut Vec<NoteID>, id: NoteID)
    ensures
        ids_of(final(v)@) == (if ids_of(old(v)@).contains(id@) {
            ids_of(old(v)@)
        } else {
            ids_of(old(v)@).push(id@)
        }),
{
    if !contains_id(v, &id) {
        let ghost before = v@;
        v.push(id);
        assert(ids_of(v@) =~= ids_of(before).push(id@));
    }
}

} // verus!
