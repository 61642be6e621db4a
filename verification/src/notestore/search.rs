//! Search requests and the query language that produces them.
//!
//! A query is a list of terms separated by single spaces:
//! `word` (positive lexeme), `-word` (negative lexeme), `#tag` (positive tag),
//! `-#tag` (negative tag), and the modifiers `!orphan`, `!notag`, `!nolimit`
//! and `!limit=<integer>`.
use crate::text::{chars_of, parse_u64, string_of_range, u64_from_text};
use vstd::prelude::*;

verus! {

/// The number of notes returned when no positive lexeme term and no limit is given.
pub const DEFAULT_LIMIT: u64 = 10;

/// A parsed search query.
pub struct SearchRequest {
    pub lexemes: Vec<String>,
    pub lexemes_excluded: Vec<String>,
    pub tags: Vec<String>,
    pub tags_excluded: Vec<String>,
    pub orphan: bool,
    pub no_tag: bool,
    pub limit: Option<u64>,
}

/// The view of a [`SearchRequest`].
pub struct SearchView {
    pub lexemes: Seq<Seq<char>>,
    pub lexemes_excluded: Seq<Seq<char>>,
    pub tags: Seq<Seq<char>>,
    pub tags_excluded: Seq<Seq<char>>,
    pub orphan: bool,
    pub no_tag: bool,
    pub limit: Option<u64>,
}

/// The texts of a vector of strings.
pub open spec fn texts(v: Seq<String>) -> Seq<Seq<char>> {
    v.map_values(|s: String| s@)
}

impl View for SearchRequest {
    type V = SearchView;

    open spec fn view(&self) -> SearchView {
        SearchView {
            lexemes: texts(self.lexemes@),
            lexemes_excluded: texts(self.lexemes_excluded@),
            tags: texts(self.tags@),
            tags_excluded: texts(self.tags_excluded@),
            orphan: self.orphan,
            no_tag: self.no_tag,
            limit: self.limit,
        }
    }
}

impl SearchRequest {
    /// Results are ordered by creation time (newest first) exactly when
    /// the query has no positive lexeme term.
    pub fn sort_by_created_at(&self) -> (r: bool)
        ensures
            r == (self.lexemes@.len() == 0),
    {
        self.lexemes.len() == 0
    }
}

/// The terms of a query: the pieces between single spaces, empty pieces included.
pub open spec fn split_on_spaces(s: Seq<char>) -> Seq<Seq<char>>
    decreases s.len(),
{
    if s.len() == 0 {
        seq![Seq::empty()]
    } else {
        let prev = split_on_spaces(s.drop_last());
        if s.last() == ' ' {
            prev.push(Seq::empty())
        } else {
            prev.update(prev.len() - 1, prev.last().push(s.last()))
        }
    }
}

pub open spec fn is_tag_term(p: Seq<char>) -> bool {
    p.len() >= 2 && p[0] == '#'
}

pub open spec fn is_excluded_tag_term(p: Seq<char>) -> bool {
    p.len() >= 3 && p[0] == '-' && p[1] == '#'
}

pub open spec fn is_excluded_lexeme_term(p: Seq<char>) -> bool {
    p.len() >= 2 && p[0] == '-' && p[1] != '#'
}

pub open spec fn is_lexeme_term(p: Seq<char>) -> bool {
    p.len() >= 1 && p[0] != '#' && p[0] != '!' && p[0] != '-'
}

pub open spec fn orphan_term() -> Seq<char> {
    seq!['!', 'o', 'r', 'p', 'h', 'a', 'n']
}

pub open spec fn notag_term() -> Seq<char> {
    seq!['!', 'n', 'o', 't', 'a', 'g']
}

pub open spec fn nolimit_term() -> Seq<char> {
    seq!['!', 'n', 'o', 'l', 'i', 'm', 'i', 't']
}

pub open spec fn limit_prefix() -> Seq<char> {
    seq!['!', 'l', 'i', 'm', 'i', 't', '=']
}

pub open spec fn is_limit_term(p: Seq<char>) -> bool {
    p.len() >= 7 && p.take(7) == limit_prefix()
}

/// The positive lexeme terms.
pub open spec fn lexeme_terms(terms: Seq<Seq<char>>) -> Seq<Seq<char>> {
    terms.filter(|p: Seq<char>| is_lexeme_term(p))
}

/// The words of the negative lexeme terms.
pub open spec fn excluded_lexemes_of(terms: Seq<Seq<char>>) -> Seq<Seq<char>> {
    terms.filter(|p: Seq<char>| is_excluded_lexeme_term(p)).map_values(|p: Seq<char>| p.skip(1))
}

/// The tags of the positive tag terms.
pub open spec fn tags_of(terms: Seq<Seq<char>>) -> Seq<Seq<char>> {
    terms.filter(|p: Seq<char>| is_tag_term(p)).map_values(|p: Seq<char>| p.skip(1))
}

/// The tags of the negative tag terms.
pub open spec fn excluded_tags_of(terms: Seq<Seq<char>>) -> Seq<Seq<char>> {
    terms.filter(|p: Seq<char>| is_excluded_tag_term(p)).map_values(|p: Seq<char>| p.skip(2))
}

/// The `!limit=` terms.
pub open spec fn limit_terms(terms: Seq<Seq<char>>) -> Seq<Seq<char>> {
    terms.filter(|p: Seq<char>| is_limit_term(p))
}

/// The limit written by the terms: the last `!limit=` term decides, and a
/// value that is not a `u64` means no limit.
pub open spec fn written_limit(terms: Seq<Seq<char>>) -> Option<u64> {
    let ls = limit_terms(terms);
    if ls.len() == 0 {
        None
    } else {
        u64_from_text(ls.last().skip(7))
    }
}

/// The search request denoted by a list of terms.
pub open spec fn request_of_terms(terms: Seq<Seq<char>>) -> SearchView {
    let lexemes = lexeme_terms(terms);
    let limit = written_limit(terms);
    SearchView {
        lexemes,
        lexemes_excluded: excluded_lexemes_of(terms),
        tags: tags_of(terms),
        tags_excluded: excluded_tags_of(terms),
        orphan: terms.contains(orphan_term()),
        no_tag: terms.contains(notag_term()),
        limit: if terms.contains(nolimit_term()) {
            None
        } else if lexemes.len() == 0 && limit is None {
            Some(DEFAULT_LIMIT)
        } else {
            limit
        },
    }
}

/// The search request a query denotes.
pub open spec fn request_of_query(q: Seq<char>) -> SearchView {
    request_of_terms(split_on_spaces(q))
}

proof fn lemma_split_nonempty(s: Seq<char>)
    ensures
        split_on_spaces(s).len() >= 1,
    decreases s.len(),
{
    if s.len() > 0 {
        lemma_split_nonempty(s.drop_last());
    }
}

/// Splits `q` into its terms.
fn split_terms(q: &Vec<char>) -> (r: Vec<Vec<char>>)
    ensures
        r@.map_values(|t: Vec<char>| t@) == split_on_spaces(q@),
{
    let mut parts: Vec<Vec<char>> = Vec::new();
    let mut cur: Vec<char> = Vec::new();
    let mut i: usize = 0;
    while i < q.len()
        invariant
            i <= q.len(),
            parts@.map_values(|t: Vec<char>| t@).push(cur@) == split_on_spaces(q@.take(i as int)),
        decreases q.len() - i,
    {
        let c = q[i];
        let ghost t = q@.take(i + 1);
        proof {
            assert(t.drop_last() =~= q@.take(i as int));
            lemma_split_nonempty(q@.take(i as int));
        }
        if c == ' ' {
            let done = cur;
            proof {
                assert(parts@.push(done).map_values(|t: Vec<char>| t@) =~= parts@.map_values(
                    |t: Vec<char>| t@,
                ).push(done@));
            }
            parts.push(done);
            cur = Vec::new();
            proof {
                assert(parts@.map_values(|t: Vec<char>| t@).push(cur@) =~= split_on_spaces(t));
            }
        } else {
            let ghost before = cur@;
            cur.push(c);
            proof {
                assert(parts@.map_values(|t: Vec<char>| t@).push(cur@) =~= parts@.map_values(
                    |t: Vec<char>| t@,
                ).push(before).update(parts@.len() as int, before.push(c)));
            }
        }
        i += 1;
    }
    assert(q@.take(q.len() as int) =~= q@);
    proof {
        assert(parts@.push(cur).map_values(|t: Vec<char>| t@) =~= parts@.map_values(
            |t: Vec<char>| t@,
        ).push(cur@));
    }
    parts.push(cur);
    parts
}

fn is_term(p: &Vec<char>, w: &Vec<char>) -> (r: bool)
    ensures
        r == (p@ == w@),
{
    if p.len() != w.len() {
        return false;
    }
    let mut k: usize = 0;
    while k < p.len()
        invariant
            p.len() == w.len(),
            k <= p.len(),
            forall|j: int| 0 <= j < k ==> p@[j] == w@[j],
        decreases p.len() - k,
    {
        if p[k] != w[k] {
            return false;
        }
        k += 1;
    }
    assert(p@ =~= w@);
    true
}

fn starts_with_limit(p: &Vec<char>) -> (r: bool)
    ensures
        r == is_limit_term(p@),
{
    if p.len() < 7 {
        return false;
    }
    let r = p[0] == '!' && p[1] == 'l' && p[2] == 'i' && p[3] == 'm' && p[4] == 'i' && p[5] == 't'
        && p[6] == '=';
    assert(r == (p@.take(7) =~= limit_prefix()));
    r
}

/// How the parts of a request grow when one more term is read.
proof fn lemma_terms_step(terms: Seq<Seq<char>>, i: int)
    requires
        0 <= i < terms.len(),
    ensures
        lexeme_terms(terms.take(i + 1)) == (if is_lexeme_term(terms[i]) {
            lexeme_terms(terms.take(i)).push(terms[i])
        } else {
            lexeme_terms(terms.take(i))
        }),
        excluded_lexemes_of(terms.take(i + 1)) == (if is_excluded_lexeme_term(terms[i]) {
            excluded_lexemes_of(terms.take(i)).push(terms[i].skip(1))
        } else {
            excluded_lexemes_of(terms.take(i))
        }),
        tags_of(terms.take(i + 1)) == (if is_tag_term(terms[i]) {
            tags_of(terms.take(i)).push(terms[i].skip(1))
        } else {
            tags_of(terms.take(i))
        }),
        excluded_tags_of(terms.take(i + 1)) == (if is_excluded_tag_term(terms[i]) {
            excluded_tags_of(terms.take(i)).push(terms[i].skip(2))
        } else {
            excluded_tags_of(terms.take(i))
        }),
        limit_terms(terms.take(i + 1)) == (if is_limit_term(terms[i]) {
            limit_terms(terms.take(i)).push(terms[i])
        } else {
            limit_terms(terms.take(i))
        }),
{
    reveal_with_fuel(Seq::<_>::filter, 1);
    let t = terms.take(i + 1);
    assert(t.drop_last() =~= terms.take(i));
    assert(t.last() == terms[i]);
    let f1 = |p: Seq<char>| is_excluded_lexeme_term(p);
    let f2 = |p: Seq<char>| is_tag_term(p);
    let f3 = |p: Seq<char>| is_excluded_tag_term(p);
    let g1 = |p: Seq<char>| p.skip(1);
    let g2 = |p: Seq<char>| p.skip(2);
    assert(terms.take(i).filter(f1).push(terms[i]).map_values(g1) =~= terms.take(i).filter(
        f1,
    ).map_values(g1).push(terms[i].skip(1)));
    assert(terms.take(i).filter(f2).push(terms[i]).map_values(g1) =~= terms.take(i).filter(
        f2,
    ).map_values(g1).push(terms[i].skip(1)));
    assert(terms.take(i).filter(f3).push(terms[i]).map_values(g2) =~= terms.take(i).filter(
        f3,
    ).map_values(g2).push(terms[i].skip(2)));
}

/// Parse a search query.
pub fn parse_query(query: &str) -> (sr: SearchRequest)
    ensures
        sr@ == request_of_query(query@),
{
    let q = chars_of(query);
    let parts = split_terms(&q);
    let ghost terms = split_on_spaces(query@);
    let orphan_w = vec!['!', 'o', 'r', 'p', 'h', 'a', 'n'];
    let notag_w = vec!['!', 'n', 'o', 't', 'a', 'g'];
    let nolimit_w = vec!['!', 'n', 'o', 'l', 'i', 'm', 'i', 't'];
    assert(orphan_w@ =~= orphan_term());
    assert(notag_w@ =~= notag_term());
    assert(nolimit_w@ =~= nolimit_term());
    let mut lexemes: Vec<String> = Vec::new();
    let mut lexemes_excluded: Vec<String> = Vec::new();
    let mut tags: Vec<String> = Vec::new();
    let mut tags_excluded: Vec<String> = Vec::new();
    let mut orphan = false;
    let mut no_tag = false;
    let mut no_limit = false;
    let mut limit: Option<u64> = None;
    let mut seen_limit = false;
    let mut i: usize = 0;
    while i < parts.len()
        invariant
            i <= parts.len(),
            parts@.map_values(|t: Vec<char>| t@) == terms,
            orphan_w@ == orphan_term(),
            notag_w@ == notag_term(),
            nolimit_w@ == nolimit_term(),
            texts(lexemes@) == lexeme_terms(terms.take(i as int)),
            texts(lexemes_excluded@) == excluded_lexemes_of(terms.take(i as int)),
            texts(tags@) == tags_of(terms.take(i as int)),
            texts(tags_excluded@) == excluded_tags_of(terms.take(i as int)),
            orphan == terms.take(i as int).contains(orphan_term()),
            no_tag == terms.take(i as int).contains(notag_term()),
            no_limit == terms.take(i as int).contains(nolimit_term()),
            seen_limit == (limit_terms(terms.take(i as int)).len() > 0),
            seen_limit ==> limit == u64_from_text(limit_terms(terms.take(i as int)).last().skip(7)),
            !seen_limit ==> limit is None,
        decreases parts.len() - i,
    {
        let p = &parts[i];
        let ghost pv = p@;
        proof {
            assert(terms[i as int] == pv);
            lemma_terms_step(terms, i as int);
            assert(terms.take(i + 1) =~= terms.take(i as int).push(pv));
            assert forall|w: Seq<char>|
                #![trigger terms.take(i + 1).contains(w)]
                terms.take(i + 1).contains(w) == (terms.take(i as int).contains(w) || pv == w) by {
                if terms.take(i as int).contains(w) {
                    let k = choose|k: int| 0 <= k < i && #[trigger] terms.take(i as int)[k] == w;
                    assert(terms.take(i + 1)[k] == w);
                }
                if pv == w {
                    assert(terms.take(i + 1)[i as int] == w);
                }
                if terms.take(i + 1).contains(w) {
                    let k = choose|k: int| 0 <= k < i + 1 && #[trigger] terms.take(i + 1)[k] == w;
                    if k < i {
                        assert(terms.take(i as int)[k] == w);
                    }
                }
            }
        }
        if p.len() >= 1 && p[0] == '#' {
            if p.len() >= 2 {
                let t = string_of_range(p, 1, p.len());
                proof {
                    assert(t@ =~= pv.skip(1));
                    assert(texts(tags@.push(t)) =~= texts(tags@).push(t@));
                }
                tags.push(t);
            }
        } else if p.len() >= 1 && p[0] == '!' {
            if is_term(p, &orphan_w) {
                orphan = true;
            } else if is_term(p, &notag_w) {
                no_tag = true;
            } else if is_term(p, &nolimit_w) {
                no_limit = true;
            } else if starts_with_limit(p) {
                limit = parse_u64(p, 7);
                seen_limit = true;
            }
        } else if p.len() >= 1 && p[0] == '-' {
            if p.len() >= 2 && p[1] == '#' {
                if p.len() >= 3 {
                    let t = string_of_range(p, 2, p.len());
                    proof {
                        assert(t@ =~= pv.skip(2));
                        assert(texts(tags_excluded@.push(t)) =~= texts(tags_excluded@).push(t@));
                    }
                    tags_excluded.push(t);
                }
            } else if p.len() >= 2 {
                let t = string_of_range(p, 1, p.len());
                proof {
                    assert(t@ =~= pv.skip(1));
                    assert(texts(lexemes_excluded@.push(t)) =~= texts(lexemes_excluded@).push(
                        t@,
                    ));
                }
                lexemes_excluded.push(t);
            }
        } else if p.len() >= 1 {
            let t = string_of_range(p, 0, p.len());
            proof {
                assert(t@ =~= pv);
                assert(texts(lexemes@.push(t)) =~= texts(lexemes@).push(t@));
            }
            lexemes.push(t);
        }
        proof {
            assert(orphan_term().len() == 7 && orphan_term()[0] == '!');
            assert(notag_term().len() == 6 && notag_term()[0] == '!');
            assert(nolimit_term().len() == 8 && nolimit_term()[0] == '!');
            assert(limit_prefix()[0] == '!');
            if is_limit_term(pv) {
                assert(pv[0] == pv.take(7)[0]);
            }
        }
        i += 1;
    }
    proof {
        assert(terms.take(parts.len() as int) =~= terms);
    }
    if lexemes.len() == 0 && limit.is_none() {
        limit = Some(DEFAULT_LIMIT);
    }
    if no_limit {
        limit = None;
    }
    SearchRequest { lexemes, lexemes_excluded, tags, tags_excluded, orphan, no_tag, limit }
}

impl From<String> for SearchRequest {
    fn from(query: String) -> (sr: SearchRequest)
        ensures
            sr@ == request_of_query(query@),
    {
        parse_query(query.as_str())
    }
}

impl vstd::std_specs::convert::FromSpecImpl<String> for SearchRequest {
    open spec fn obeys_from_spec() -> bool {
        false
    }

    open spec fn from_spec(v: String) -> SearchRequest {
        choose|r: SearchRequest| r@ == request_of_query(v@)
    }
}

impl<'a> From<&'a str> for SearchRequest {
    fn from(query: &'a str) -> (sr: SearchRequest)
        ensures
            sr@ == request_of_query(query@),
    {
        parse_query(query)
    }
}

impl<'a> vstd::std_specs::convert::FromSpecImpl<&'a str> for SearchRequest {
    open spec fn obeys_from_spec() -> bool {
        false
    }

    open spec fn from_spec(v: &'a str) -> SearchRequest {
        choose|r: SearchRequest| r@ == request_of_query(v@)
    }
}

} // verus!
