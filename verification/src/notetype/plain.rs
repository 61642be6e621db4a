//! Plain text notes that record their referents explicitly.
use crate::note::NoteID;
use crate::notemetadata::dedup;
use crate::notetype::{contains_id, copy_ids, ids_of, insert_id, NoteType};
use crate::text::{hex_digit, push_all};
use vstd::prelude::*;
use vstd::utf8::encode_utf8;

verus! {

/// Errors of plain notes.
#[derive(Debug)]
pub enum PlainNoteError {
    /// This note doesn't refer to the note.
    ReferenceNotExist(NoteID),
}

/// A plain text note with an explicit set of referents.
#[derive(Debug, PartialEq, Eq)]
pub struct PlainNote {
    body: String,
    referents: Vec<NoteID>,
}

/// The view of a [`PlainNote`]: its body and its referents in insertion order.
pub struct PlainNoteView {
    pub body: Seq<char>,
    pub referents: Seq<Seq<char>>,
}

impl View for PlainNote {
    type V = PlainNoteView;

    closed spec fn view(&self) -> PlainNoteView {
        PlainNoteView { body: self.body@, referents: ids_of(self.referents@) }
    }
}

/// `s` without the element `x`.
pub open spec fn without(s: Seq<Seq<char>>, x: Seq<char>) -> Seq<Seq<char>> {
    s.filter(|y: Seq<char>| y != x)
}

impl PlainNote {
    #[verifier::type_invariant]
    spec fn referents_distinct(&self) -> bool {
        ids_of(self.referents@).no_duplicates()
    }

    /// A note with the given body and no referents.
    pub fn new(body: String) -> (r: Self)
        ensures
            r@ == (PlainNoteView { body: body@, referents: Seq::empty() }),
    {
        let referents: Vec<NoteID> = Vec::new();
        assert(ids_of(referents@) =~= Seq::<Seq<char>>::empty());
        PlainNote { body, referents }
    }

    /// A note with the given body and referents; repeated referents are kept once.
    pub fn from_parts(body: String, referents: Vec<NoteID>) -> (r: Self)
        ensures
            r@ == (PlainNoteView { body: body@, referents: dedup(ids_of(referents@)) }),
    {
        let mut note = PlainNote::new(body);
        let mut i: usize = 0;
        while i < referents.len()
            invariant
                i <= referents.len(),
                note@.body == body@,
                note@.referents == dedup(ids_of(referents@).take(i as int)),
            decreases referents.len() - i,
        {
            let ghost t = ids_of(referents@).take(i + 1);
            assert(t.drop_last() =~= ids_of(referents@).take(i as int));
            note.add_referent(referents[i].clone());
            i += 1;
        }
        assert(ids_of(referents@).take(referents.len() as int) =~= ids_of(referents@));
        note
    }

    /// The body of the note.
    pub fn body(&self) -> (r: &str)
        ensures
            r@ == self@.body,
    {
        self.body.as_str()
    }

    /// The referents of the note, in insertion order.
    pub fn referent_list(&self) -> (r: &Vec<NoteID>)
        ensures
            ids_of(r@) == self@.referents,
    {
        &self.referents
    }

    /// Make the note refer to `referent`.
    pub fn add_referent(&mut self, referent: NoteID)
        ensures
            final(self)@.body == old(self)@.body,
            final(self)@.referents == (if old(self)@.referents.contains(referent@) {
                old(self)@.referents
            } else {
                old(self)@.referents.push(referent@)
            }),
    {
        proof {
            use_type_invariant(&*self);
        }
        let ghost rid = referent@;
        let mut refs: Vec<NoteID> = Vec::new();
        std::mem::swap(&mut refs, &mut self.referents);
        insert_id(&mut refs, referent);
        proof {
            let s = old(self)@.referents;
            if !s.contains(rid) {
                assert forall|a: int, b: int|
                    0 <= a < b < s.push(rid).len() implies s.push(rid)[a] != s.push(rid)[b] by {
                    if b == s.len() {
                        assert(s.contains(s[a]));
                    }
                }
            }
        }
        self.referents = refs;
    }

    /// Split the body at byte position `at`: this note keeps the text before
    /// it and its referents, the other note gets the rest and no referents.
    pub fn split_off(self, at: usize) -> (r: (Self, Self))
        requires
            vstd::utf8::is_char_boundary(encode_utf8(self@.body), at as int),
        ensures
            encode_utf8(r.0@.body) == encode_utf8(self@.body).subrange(0, at as int),
            r.0@.referents == self@.referents,
            encode_utf8(r.1@.body) == encode_utf8(self@.body).subrange(
                at as int,
                encode_utf8(self@.body).len() as int,
            ),
            r.1@.referents == Seq::<Seq<char>>::empty(),
    {
        proof {
            use_type_invariant(&self);
        }
        let PlainNote { body, referents } = self;
        let (head, tail) = body.as_str().split_at(at);
        let head = head.to_owned();
        let tail = tail.to_owned();
        (PlainNote { body: head, referents }, PlainNote::new(tail))
    }

    /// Join two notes: the bodies are concatenated and the referents united.
    pub fn merge(self, other: Self) -> (r: Self)
        ensures
            r@.body == self@.body + other@.body,
            r@.referents == dedup(self@.referents + other@.referents),
    {
        proof {
            use_type_invariant(&self);
            use_type_invariant(&other);
            lemma_dedup_of_distinct(self@.referents);
        }
        let ghost sr = self@.referents;
        let ghost or = other@.referents;
        let PlainNote { body, referents } = self;
        let mut body = body;
        crate::text::push_all(&mut body, other.body.as_str());
        let mut note = PlainNote { body, referents };
        let mut i: usize = 0;
        while i < other.referents.len()
            invariant
                i <= other.referents.len(),
                ids_of(other.referents@) == or,
                note@.body == self@.body + other@.body,
                note@.referents == dedup(sr + or.take(i as int)),
            decreases other.referents.len() - i,
        {
            assert((sr + or.take(i + 1)).drop_last() =~= sr + or.take(i as int));
            assert((sr + or.take(i + 1)).last() == or[i as int]);
            note.add_referent(other.referents[i].clone());
            i += 1;
        }
        assert(or.take(or.len() as int) =~= or);
        note
    }
}

/// `dedup` leaves a sequence without repetitions as it is.
pub proof fn lemma_dedup_of_distinct(s: Seq<Seq<char>>)
    requires
        s.no_duplicates(),
    ensures
        dedup(s) == s,
    decreases s.len(),
{
    if s.len() > 0 {
        let p = s.drop_last();
        assert(p.no_duplicates());
        lemma_dedup_of_distinct(p);
        if p.contains(s.last()) {
            let k = choose|k: int| 0 <= k < p.len() && p[k] == s.last();
            assert(s[k] == s[s.len() - 1]);
        }
        assert(p.push(s.last()) =~= s);
    }
}

/// How `serde_json` writes a character inside a JSON string: `"` and `\`
/// behind a backslash, the control characters below U+0020 as `\b`, `\t`,
/// `\n`, `\f`, `\r` or `\u00` and two lower-case hexadecimal digits, and
/// every other character as it is.
pub open spec fn json_escaped_char(c: char) -> Seq<char> {
    if c == '"' {
        seq!['\\', '"']
    } else if c == '\\' {
        seq!['\\', '\\']
    } else if c == '\u{8}' {
        seq!['\\', 'b']
    } else if c == '\t' {
        seq!['\\', 't']
    } else if c == '\n' {
        seq!['\\', 'n']
    } else if c == '\u{c}' {
        seq!['\\', 'f']
    } else if c == '\r' {
        seq!['\\', 'r']
    } else if (c as nat) < 32 {
        seq!['\\', 'u', '0', '0', hex_digit((c as nat) / 16), hex_digit((c as nat) % 16)]
    } else {
        seq![c]
    }
}

/// The characters of a string, each written as `serde_json` writes it.
pub open spec fn json_escaped(s: Seq<char>) -> Seq<char>
    decreases s.len(),
{
    if s.len() == 0 {
        Seq::empty()
    } else {
        json_escaped(s.drop_last()) + json_escaped_char(s.last())
    }
}

/// The JSON text `serde_json` writes for a string: the string in double
/// quotes, with the characters that JSON requires escaped.
pub open spec fn json_quoted(s: Seq<char>) -> Seq<char> {
    seq!['"'] + json_escaped(s) + seq!['"']
}

/// Writes a string as a JSON string.
///
/// Trusted: `serde_json::to_string` of a `&str` never fails and writes the
/// string as [`json_quoted`] states.
#[verifier::external_body]
fn quote_json(s: &str) -> (r: String)
    ensures
        r@ == json_quoted(s@),
{
    serde_json::to_string(s).unwrap()
}

/// The JSON array of the quoted identifiers `ids`.
pub open spec fn json_id_list(ids: Seq<Seq<char>>) -> Seq<char>
    decreases ids.len(),
{
    if ids.len() == 0 {
        Seq::empty()
    } else if ids.len() == 1 {
        json_quoted(ids[0])
    } else {
        json_id_list(ids.drop_last()) + ","@ + json_quoted(ids.last())
    }
}

/// The JSON text of a plain note: its body and its referents, as
/// `{"body":...,"referents":[...]}`.
pub open spec fn plain_json(v: PlainNoteView) -> Seq<char> {
    "{\"body\":"@ + json_quoted(v.body) + ",\"referents\":["@ + json_id_list(v.referents) + "]}"@
}

impl PlainNote {
    /// The JSON text of the note, as it is stored.
    pub fn to_json(&self) -> (r: String)
        ensures
            r@ == plain_json(self@),
    {
        let mut s = "{\"body\":".to_owned();
        let body = quote_json(self.body.as_str());
        push_all(&mut s, body.as_str());
        push_all(&mut s, ",\"referents\":[");
        let ghost start = s@;
        let ghost ids = ids_of(self.referents@);
        let mut i: usize = 0;
        while i < self.referents.len()
            invariant
                i <= self.referents.len(),
                ids == ids_of(self.referents@),
                s@ == start + json_id_list(ids.take(i as int)),
            decreases self.referents.len() - i,
        {
            let ghost before = s@;
            if i > 0 {
                push_all(&mut s, ",");
            }
            let q = quote_json(self.referents[i].as_str());
            push_all(&mut s, q.as_str());
            proof {
                let t = ids.take(i + 1);
                assert(t.drop_last() =~= ids.take(i as int));
                assert(t.last() == self.referents@[i as int]@);
                if i == 0 {
                    assert(ids.take(0) =~= Seq::<Seq<char>>::empty());
                }
                assert(s@ =~= start + json_id_list(t));
            }
            i += 1;
        }
        assert(ids.take(self.referents.len() as int) =~= ids);
        push_all(&mut s, "]}");
        s
    }
}

impl NoteType for PlainNote {
    type Error = PlainNoteError;

    open spec fn readable(v: PlainNoteView) -> bool {
        true
    }

    open spec fn referent_ids(v: PlainNoteView) -> Set<Seq<char>> {
        v.referents.to_set()
    }

    open spec fn text_of(v: PlainNoteView) -> Seq<char> {
        v.body
    }

    open spec fn stored_text(v: PlainNoteView) -> Seq<char> {
        plain_json(v)
    }

    fn get_referents(&self) -> (r: Result<Vec<NoteID>, PlainNoteError>) {
        proof {
            use_type_invariant(self);
        }
        Ok(copy_ids(&self.referents))
    }

    fn update_referent(&mut self, old_referent: NoteID, new_referent: NoteID) -> (r: Result<
        (),
        PlainNoteError,
    >)
        ensures
            r is Err <==> !old(self)@.referents.contains(old_referent@),
            r is Err ==> final(self)@ == old(self)@,
            r matches Err(PlainNoteError::ReferenceNotExist(id)) ==> id@ == old_referent@,
            r is Ok ==> final(self)@.body == old(self)@.body && final(self)@.referents == (if without(
                old(self)@.referents,
                old_referent@,
            ).contains(new_referent@) {
                without(old(self)@.referents, old_referent@)
            } else {
                without(old(self)@.referents, old_referent@).push(new_referent@)
            }),
    {
        proof {
            use_type_invariant(&*self);
        }
        if !contains_id(&self.referents, &old_referent) {
            return Err(PlainNoteError::ReferenceNotExist(old_referent));
        }
        let ghost s = old(self)@.referents;
        let mut kept: Vec<NoteID> = Vec::new();
        let mut i: usize = 0;
        while i < self.referents.len()
            invariant
                i <= self.referents.len(),
                ids_of(self.referents@) == s,
                s.no_duplicates(),
                ids_of(kept@) == without(s.take(i as int), old_referent@),
            decreases self.referents.len() - i,
        {
            proof {
                reveal_with_fuel(Seq::<_>::filter, 1);
                assert(s.take(i + 1).drop_last() =~= s.take(i as int));
            }
            if !self.referents[i].same(&old_referent) {
                let c = self.referents[i].clone();
                proof {
                    assert(ids_of(kept@.push(c)) =~= ids_of(kept@).push(c@));
                }
                kept.push(c);
            }
            i += 1;
        }
        assert(s.take(s.len() as int) =~= s);
        proof {
            lemma_without_distinct(s, old_referent@);
        }
        let ghost w = without(s, old_referent@);
        let ghost nr = new_referent@;
        insert_id(&mut kept, new_referent);
        proof {
            if !w.contains(nr) {
                assert forall|a: int, b: int|
                    0 <= a < b < w.push(nr).len() implies w.push(nr)[a] != w.push(nr)[b] by {
                    if b == w.len() {
                        assert(w.contains(w[a]));
                    }
                }
            }
        }
        self.referents = kept;
        Ok(())
    }

    fn duplicate(&self) -> (r: Self) {
        proof {
            use_type_invariant(self);
        }
        PlainNote { body: self.body.clone(), referents: copy_ids(&self.referents) }
    }

    fn search_text(&self) -> (r: String) {
        self.body.clone()
    }

    fn to_text(&self) -> (r: String) {
        self.to_json()
    }

    fn error_message(e: &PlainNoteError) -> (r: String)
        ensures
            match e {
                PlainNoteError::ReferenceNotExist(id) => r@ == "this note doesn't refer to `"@ + id@ + "`"@,
            },
    {
        match e {
            PlainNoteError::ReferenceNotExist(id) => {
                let mut s = "this note doesn't refer to `".to_owned();
                push_all(&mut s, id.as_str());
                push_all(&mut s, "`");
                s
            },
        }
    }
}

/// Removing an element keeps a sequence free of repetitions.
pub proof fn lemma_without_distinct(s: Seq<Seq<char>>, x: Seq<char>)
    requires
        s.no_duplicates(),
    ensures
        without(s, x).no_duplicates(),
        forall|y: Seq<char>| #[trigger] without(s, x).contains(y) <==> (s.contains(y) && y != x),
    decreases s.len(),
{
    reveal_with_fuel(Seq::<_>::filter, 1);
    if s.len() > 0 {
        let p = s.drop_last();
        assert(p.no_duplicates());
        lemma_without_distinct(p, x);
        let wp = without(p, x);
        assert forall|y: Seq<char>| #[trigger] without(s, x).contains(y) <==> (s.contains(y) && y
            != x) by {
            if s.contains(y) && y != x {
                let k = choose|k: int| 0 <= k < s.len() && s[k] == y;
                if k < p.len() {
                    assert(p[k] == y);
                    assert(wp.contains(y));
                    let m = choose|m: int| 0 <= m < wp.len() && wp[m] == y;
                    assert(without(s, x)[m] == y);
                } else {
                    assert(without(s, x).last() == y);
                }
            }
            if without(s, x).contains(y) {
                let m = choose|m: int| 0 <= m < without(s, x).len() && without(s, x)[m] == y;
                if s.last() != x && m == wp.len() {
                    assert(s[s.len() - 1] == y);
                } else {
                    assert(wp[m] == y);
                    assert(wp.contains(y));
                    let k = choose|k: int| 0 <= k < p.len() && p[k] == y;
                    assert(s[k] == y);
                }
            }
        }
        if s.last() != x {
            assert forall|a: int, b: int|
                0 <= a < b < wp.push(s.last()).len() implies wp.push(s.last())[a] != wp.push(
                s.last(),
            )[b] by {
                if b == wp.len() {
                    assert(wp.contains(wp[a]));
                    let k = choose|k: int| 0 <= k < p.len() && p[k] == wp[a];
                    assert(s[k] == p[k]);
                }
            }
        }
    }
}

} // verus!
