//! The logic of the PostgreSQL note store: the statements it sends, and the
//! notes it makes of the rows it reads back. Talking to the database is left
//! to the caller.
use crate::errors::NoteStoreError;
use crate::note::{Note, NoteID, NoteLocator, Revision};
use crate::notemetadata::{dedup, texts_of, dedup_texts, MetadataView, NoteMetadata};
use crate::notestore::in_memory::{opt_id, ComputedView};
use crate::notestore::search::{texts, SearchRequest, SearchView};
use crate::notetype::{contains_id, copy_ids, ids_of, NoteType};
use crate::text::{decimal, push_all, push_decimal};
use vstd::prelude::*;

verus! {

/// `parts` joined with `sep` between each two of them.
pub open spec fn joined(parts: Seq<Seq<char>>, sep: Seq<char>) -> Seq<char>
    decreases parts.len(),
{
    if parts.len() == 0 {
        Seq::empty()
    } else if parts.len() == 1 {
        parts[0]
    } else {
        joined(parts.drop_last(), sep) + sep + parts.last()
    }
}

/// `prefix` followed by `parts` joined with `sep`; nothing when there are no parts.
pub open spec fn clause(parts: Seq<Seq<char>>, prefix: Seq<char>, sep: Seq<char>) -> Seq<char> {
    if parts.len() == 0 {
        Seq::empty()
    } else {
        prefix + joined(parts, sep)
    }
}

/// The `LIMIT` clause of a limit.
pub open spec fn limit_text(limit: Option<u64>) -> Seq<char> {
    match limit {
        Some(l) => "LIMIT "@ + decimal(l as nat),
        None => Seq::empty(),
    }
}

/// The columns that every note query selects, up to the added ones.
pub open spec fn query_head() -> Seq<char> {
    "\n        SELECT\n            revision.revision,\n            revision.id,\n            revision.title,\n            revision.note_inner,\n            revision.parent,\n            array_remove(array_agg(revision1.id), NULL) AS branches,\n            revision.prev,\n            array_remove(array_agg(revision2.id), NULL) AS next,\n            revision.referents,\n            array_remove(array_agg(revision3.id), NULL) AS \"references\",\n            revision.metadata_schema_version,\n            revision.metadata_created_at,\n            revision.metadata_modified_at,\n            revision.metadata_tags,\n            revision.metadata_custom_metadata,\n            cr.current_revision IS NOT NULL AS is_current"@
}

/// The tables every note query joins: the current revisions, and the
/// current revisions of the branches, the next note and the referring notes.
pub open spec fn query_from() -> Seq<char> {
    "\n        FROM\n            revision\n        LEFT JOIN current_revision cr ON revision.revision = cr.current_revision\n        LEFT JOIN revision_only_current AS revision1 ON revision1.parent = revision.id\n        LEFT JOIN revision_only_current AS revision2 ON revision2.prev = revision.id\n        -- https://stackoverflow.com/a/29245753\n        -- indexes are bound to operators, and the indexed expression must be to the left of\n        -- the operator\n        LEFT JOIN revision_only_current AS revision3 ON revision3.referents @> ARRAY[revision.id]\n        "@
}

/// The line break between clauses.
pub open spec fn query_break() -> Seq<char> {
    "\n        "@
}

/// The grouping every note query makes.
pub open spec fn query_group() -> Seq<char> {
    "\n        GROUP BY revision.revision, cr.current_revision"@
}

/// The text of a note query with added columns, joins, conditions, groupings,
/// conditions on groups, orderings and a limit.
pub open spec fn note_query_text(
    columns: Seq<Seq<char>>,
    joins: Seq<Seq<char>>,
    conditions: Seq<Seq<char>>,
    groupbys: Seq<Seq<char>>,
    havings: Seq<Seq<char>>,
    orders: Seq<Seq<char>>,
    limit: Option<u64>,
) -> Seq<char> {
    query_head() + clause(columns, ",\n"@, ",\n"@) + query_from() + clause(joins, Seq::empty(), "\n"@)
        + query_break() + clause(conditions, "WHERE "@, " AND "@) + query_group() + clause(
        groupbys,
        ", "@,
        ", "@,
    ) + query_break() + clause(havings, "HAVING "@, " AND "@) + query_break() + clause(
        orders,
        "ORDER BY "@,
        ", "@,
    ) + query_break() + limit_text(limit) + query_break()
}

/// Appends `parts` joined with `sep`.
fn push_joined(s: &mut String, parts: &Vec<String>, sep: &str)
    ensures
        final(s)@ == old(s)@ + joined(texts(parts@), sep@),
{
    let ghost p = texts(parts@);
    let mut i: usize = 0;
    while i < parts.len()
        invariant
            i <= parts.len(),
            p == texts(parts@),
            s@ == old(s)@ + joined(p.take(i as int), sep@),
        decreases parts.len() - i,
    {
        let ghost before = s@;
        if i > 0 {
            push_all(s, sep);
        }
        push_all(s, parts[i].as_str());
        proof {
            let q = p.take(i + 1);
            assert(q.drop_last() =~= p.take(i as int));
            assert(q.last() == parts@[i as int]@);
            if i == 0 {
                assert(joined(p.take(0), sep@) =~= Seq::<char>::empty());
                assert(s@ =~= old(s)@ + joined(q, sep@));
            } else {
                assert(s@ =~= old(s)@ + joined(q, sep@));
            }
        }
        i += 1;
    }
    assert(p.take(parts.len() as int) =~= p);
}

/// Appends `prefix` and `parts` joined with `sep`, when there are parts.
fn push_clause(s: &mut String, parts: &Vec<String>, prefix: &str, sep: &str)
    ensures
        final(s)@ == old(s)@ + clause(texts(parts@), prefix@, sep@),
{
    if parts.len() > 0 {
        let ghost before = s@;
        push_all(s, prefix);
        push_joined(s, parts, sep);
        assert(s@ =~= before + clause(texts(parts@), prefix@, sep@));
    } else {
        assert(s@ =~= old(s)@ + clause(texts(parts@), prefix@, sep@));
    }
}

/// The statement that reads notes, with their branches, next notes and
/// referring notes, with the given additions.
pub fn get_note_query(
    columns: Vec<String>,
    joins: Vec<String>,
    conditions: Vec<String>,
    groupbys: Vec<String>,
    havings: Vec<String>,
    orders: Vec<String>,
    limit: Option<u64>,
) -> (r: String)
    ensures
        r@ == note_query_text(
            texts(columns@),
            texts(joins@),
            texts(conditions@),
            texts(groupbys@),
            texts(havings@),
            texts(orders@),
            limit,
        ),
{
    let head = "\n        SELECT\n            revision.revision,\n            revision.id,\n            revision.title,\n            revision.note_inner,\n            revision.parent,\n            array_remove(array_agg(revision1.id), NULL) AS branches,\n            revision.prev,\n            array_remove(array_agg(revision2.id), NULL) AS next,\n            revision.referents,\n            array_remove(array_agg(revision3.id), NULL) AS \"references\",\n            revision.metadata_schema_version,\n            revision.metadata_created_at,\n            revision.metadata_modified_at,\n            revision.metadata_tags,\n            revision.metadata_custom_metadata,\n            cr.current_revision IS NOT NULL AS is_current";
    let from = "\n        FROM\n            revision\n        LEFT JOIN current_revision cr ON revision.revision = cr.current_revision\n        LEFT JOIN revision_only_current AS revision1 ON revision1.parent = revision.id\n        LEFT JOIN revision_only_current AS revision2 ON revision2.prev = revision.id\n        -- https://stackoverflow.com/a/29245753\n        -- indexes are bound to operators, and the indexed expression must be to the left of\n        -- the operator\n        LEFT JOIN revision_only_current AS revision3 ON revision3.referents @> ARRAY[revision.id]\n        ";
    let brk = "\n        ";
    let group = "\n        GROUP BY revision.revision, cr.current_revision";
    let mut s = String::new();
    push_all(&mut s, head);
    push_clause(&mut s, &columns, ",\n", ",\n");
    push_all(&mut s, from);
    push_clause(&mut s, &joins, "", "\n");
    push_all(&mut s, brk);
    push_clause(&mut s, &conditions, "WHERE ", " AND ");
    push_all(&mut s, group);
    push_clause(&mut s, &groupbys, ", ", ", ");
    push_all(&mut s, brk);
    push_clause(&mut s, &havings, "HAVING ", " AND ");
    push_all(&mut s, brk);
    push_clause(&mut s, &orders, "ORDER BY ", ", ");
    push_all(&mut s, brk);
    if let Some(l) = limit {
        push_all(&mut s, "LIMIT ");
        push_decimal(&mut s, l);
    }
    push_all(&mut s, brk);
    proof {
        assert(""@ =~= Seq::<char>::empty()) by {
            reveal_strlit("");
        }
        assert(s@ =~= note_query_text(
            texts(columns@),
            texts(joins@),
            texts(conditions@),
            texts(groupbys@),
            texts(havings@),
            texts(orders@),
            limit,
        ));
    }
    s
}

/// The additions that a search makes to the note query.
pub struct QueryParts {
    pub columns: Vec<String>,
    pub joins: Vec<String>,
    pub conditions: Vec<String>,
    pub groupbys: Vec<String>,
    pub havings: Vec<String>,
    pub orders: Vec<String>,
    pub limit: Option<u64>,
}

/// The view of [`QueryParts`].
pub struct QueryPartsView {
    pub columns: Seq<Seq<char>>,
    pub joins: Seq<Seq<char>>,
    pub conditions: Seq<Seq<char>>,
    pub groupbys: Seq<Seq<char>>,
    pub havings: Seq<Seq<char>>,
    pub orders: Seq<Seq<char>>,
    pub limit: Option<u64>,
}

impl View for QueryParts {
    type V = QueryPartsView;

    open spec fn view(&self) -> QueryPartsView {
        QueryPartsView {
            columns: texts(self.columns@),
            joins: texts(self.joins@),
            conditions: texts(self.conditions@),
            groupbys: texts(self.groupbys@),
            havings: texts(self.havings@),
            orders: texts(self.orders@),
            limit: self.limit,
        }
    }
}

/// `s` when `b` holds, else nothing.
pub open spec fn when(b: bool, s: Seq<Seq<char>>) -> Seq<Seq<char>> {
    if b {
        s
    } else {
        Seq::empty()
    }
}

/// What a search adds to the note query: only current revisions; newest
/// first without positive lexemes, else ranked by the full-text match;
/// orphans have no previous note, no parent and no referring note; the tags
/// asked for (the first parameter) are among the note's tags; a note without
/// tags has an empty tag array.
pub open spec fn search_parts(sr: SearchView) -> QueryPartsView {
    let lexical = sr.lexemes.len() > 0;
    QueryPartsView {
        columns: when(lexical, seq!["ts_rank(revision.text_searchable, query.query) AS rank"@]),
        joins: when(lexical, seq!["JOIN to_tsquery($2) query ON revision.text_searchable @@ query.query"@]),
        conditions: seq!["cr.current_revision IS NOT NULL"@] + when(
            sr.orphan,
            seq!["revision.prev IS NULL"@, "revision.parent IS NULL"@],
        ) + seq!["revision.metadata_tags @> $1"@] + when(sr.no_tag, seq!["revision.metadata_tags = '{}'"@]),
        groupbys: when(lexical, seq!["query.query"@]),
        havings: when(sr.orphan, seq!["array_remove(array_agg(revision3.id), NULL) = '{}'"@]),
        orders: when(!lexical, seq!["revision.metadata_created_at DESC"@]) + when(lexical, seq!["rank DESC"@]),
        limit: sr.limit,
    }
}

/// The additions that a search request makes to the note query.
pub fn search_query_parts(sr: &SearchRequest) -> (r: QueryParts)
    ensures
        r@ == search_parts(sr@),
{
    let mut columns: Vec<String> = Vec::new();
    let mut joins: Vec<String> = Vec::new();
    let mut conditions: Vec<String> = Vec::new();
    let mut groupbys: Vec<String> = Vec::new();
    let mut havings: Vec<String> = Vec::new();
    let mut orders: Vec<String> = Vec::new();
    conditions.push("cr.current_revision IS NOT NULL".to_owned());
    if sr.sort_by_created_at() {
        orders.push("revision.metadata_created_at DESC".to_owned());
    }
    if sr.orphan {
        conditions.push("revision.prev IS NULL".to_owned());
        conditions.push("revision.parent IS NULL".to_owned());
        havings.push("array_remove(array_agg(revision3.id), NULL) = '{}'".to_owned());
    }
    conditions.push("revision.metadata_tags @> $1".to_owned());
    if sr.no_tag {
        conditions.push("revision.metadata_tags = '{}'".to_owned());
    }
    if sr.lexemes.len() > 0 {
        columns.push("ts_rank(revision.text_searchable, query.query) AS rank".to_owned());
        joins.push("JOIN to_tsquery($2) query ON revision.text_searchable @@ query.query".to_owned());
        groupbys.push("query.query".to_owned());
        orders.push("rank DESC".to_owned());
    }
    let r = QueryParts { columns, joins, conditions, groupbys, havings, orders, limit: sr.limit };
    assert(r@.columns =~= search_parts(sr@).columns);
    assert(r@.joins =~= search_parts(sr@).joins);
    assert(r@.conditions =~= search_parts(sr@).conditions);
    assert(r@.groupbys =~= search_parts(sr@).groupbys);
    assert(r@.havings =~= search_parts(sr@).havings);
    assert(r@.orders =~= search_parts(sr@).orders);
    r
}

/// The statement that searches for notes; its first parameter is the tags
/// asked for and, with positive lexemes, its second the full-text query.
pub fn search_statement(sr: &SearchRequest) -> (r: String)
    ensures
        ({
            let p = search_parts(sr@);
            r@ == note_query_text(p.columns, p.joins, p.conditions, p.groupbys, p.havings, p.orders, p.limit)
        }),
{
    let p = search_query_parts(sr);
    get_note_query(p.columns, p.joins, p.conditions, p.groupbys, p.havings, p.orders, p.limit)
}

/// The full-text query of a search: the positive lexemes joined with ` & `,
/// when there are any.
pub fn full_text_query(sr: &SearchRequest) -> (r: Option<String>)
    ensures
        sr@.lexemes.len() == 0 ==> r is None,
        sr@.lexemes.len() > 0 ==> (r matches Some(q) && q@ == joined(sr@.lexemes, " & "@)),
{
    if sr.lexemes.len() == 0 {
        None
    } else {
        let mut s = String::new();
        push_joined(&mut s, &sr.lexemes, " & ");
        assert(s@ =~= joined(sr@.lexemes, " & "@));
        Some(s)
    }
}

/// The statement that reads the current revision of note `$1`.
pub fn current_note_statement() -> (r: String)
    ensures
        r@ == note_query_text(
            Seq::empty(),
            Seq::empty(),
            seq!["revision.id = $1"@, "cr.current_revision IS NOT NULL"@],
            Seq::empty(),
            Seq::empty(),
            Seq::empty(),
            None,
        ),
{
    let mut conditions: Vec<String> = Vec::new();
    conditions.push("revision.id = $1".to_owned());
    conditions.push("cr.current_revision IS NOT NULL".to_owned());
    assert(texts(conditions@) =~= seq!["revision.id = $1"@, "cr.current_revision IS NOT NULL"@]);
    let r = get_note_query(Vec::new(), Vec::new(), conditions, Vec::new(), Vec::new(), Vec::new(), None);
    assert(texts(Seq::<String>::empty()) =~= Seq::<Seq<char>>::empty());
    r
}

/// The statement that reads revision `$2` of note `$1`.
pub fn specific_note_statement() -> (r: String)
    ensures
        r@ == note_query_text(
            Seq::empty(),
            Seq::empty(),
            seq!["revision.id = $1"@, "revision.revision = $2"@],
            Seq::empty(),
            Seq::empty(),
            Seq::empty(),
            None,
        ),
{
    let mut conditions: Vec<String> = Vec::new();
    conditions.push("revision.id = $1".to_owned());
    conditions.push("revision.revision = $2".to_owned());
    assert(texts(conditions@) =~= seq!["revision.id = $1"@, "revision.revision = $2"@]);
    let r = get_note_query(Vec::new(), Vec::new(), conditions, Vec::new(), Vec::new(), Vec::new(), None);
    assert(texts(Seq::<String>::empty()) =~= Seq::<Seq<char>>::empty());
    r
}

/// The statement that reads all revisions of note `$1`, the least recently
/// modified first.
pub fn revisions_statement() -> (r: String)
    ensures
        r@ == note_query_text(
            Seq::empty(),
            Seq::empty(),
            seq!["revision.id = $1"@],
            Seq::empty(),
            Seq::empty(),
            seq!["revision.metadata_modified_at ASC"@],
            None,
        ),
{
    let mut conditions: Vec<String> = Vec::new();
    conditions.push("revision.id = $1".to_owned());
    let mut orders: Vec<String> = Vec::new();
    orders.push("revision.metadata_modified_at ASC".to_owned());
    let r = get_note_query(Vec::new(), Vec::new(), conditions, Vec::new(), Vec::new(), orders, None);
    assert(texts(Seq::<String>::empty()) =~= Seq::<Seq<char>>::empty());
    r
}

/// The outcome of removing the current revision through a locator, given
/// how many rows the removal touched: exactly one, or the note (or the
/// revision asked for) is not there.
pub fn deletion_outcome(loc: &NoteLocator, rows_affected: u64) -> (r: Result<(), NoteStoreError>)
    ensures
        r is Ok <==> rows_affected == 1,
        r matches Err(e) ==> match loc@.revision {
            None => e@ == crate::errors::StoreErrorView::NoteNotExist(loc@.id),
            Some(rev) => e@ == crate::errors::StoreErrorView::RevisionNotExist(loc@.id, rev),
        },
{
    if rows_affected != 1 {
        match loc {
            NoteLocator::Current(id) => Err(NoteStoreError::NoteNotExist(id.clone())),
            NoteLocator::Specific(id, revision) => Err(NoteStoreError::RevisionNotExist(id.clone(), revision.clone())),
        }
    } else {
        Ok(())
    }
}

/// The distinct identifiers of `v`, in the order of their first occurrence.
fn dedup_ids(v: &Vec<NoteID>) -> (r: Vec<NoteID>)
    ensures
        ids_of(r@) == dedup(ids_of(v@)),
{
    let mut r: Vec<NoteID> = Vec::new();
    let mut i: usize = 0;
    while i < v.len()
        invariant
            i <= v.len(),
            ids_of(r@) == dedup(ids_of(v@).take(i as int)),
        decreases v.len() - i,
    {
        let ghost t = ids_of(v@).take(i + 1);
        assert(t.drop_last() =~= ids_of(v@).take(i as int));
        if !contains_id(&r, &v[i]) {
            let c = v[i].clone();
            proof {
                assert(ids_of(r@.push(c)) =~= ids_of(r@).push(c@));
            }
            r.push(c);
        }
        i += 1;
    }
    assert(ids_of(v@).take(v.len() as int) =~= ids_of(v@));
    r
}

/// A row that a note query reads: a revision of a note, with the
/// identifiers of its branches, of the next note and of the notes that refer
/// to it. Times are nanoseconds since the Unix epoch; the custom metadata is a
/// JSON text.
pub struct PostgreSQLNoteRowJoined {
    pub revision: Revision,
    pub id: NoteID,
    pub title: String,
    pub note_inner: String,
    pub parent: Option<NoteID>,
    pub branches: Option<Vec<NoteID>>,
    pub prev: Option<NoteID>,
    pub next: Option<Vec<NoteID>>,
    pub referents: Vec<NoteID>,
    pub references: Option<Vec<NoteID>>,
    pub metadata_schema_version: i64,
    pub metadata_created_at: i128,
    pub metadata_modified_at: i128,
    pub metadata_tags: Vec<String>,
    pub metadata_custom_metadata: String,
    pub is_current: bool,
}

/// A note read from the database.
pub struct PostgreSQLNote<T> {
    title: String,
    note_inner: T,
    id: NoteID,
    revision: Revision,
    parent: Option<NoteID>,
    branches: Vec<NoteID>,
    prev: Option<NoteID>,
    next: Option<NoteID>,
    referents: Vec<NoteID>,
    references: Vec<NoteID>,
    metadata: NoteMetadata,
    is_current: bool,
}

impl<T: View> View for PostgreSQLNote<T> {
    type V = ComputedView<T::V>;

    closed spec fn view(&self) -> ComputedView<T::V> {
        ComputedView {
            title: self.title@,
            inner: self.note_inner@,
            id: self.id@,
            revision: self.revision@,
            is_current: self.is_current,
            parent: opt_id(self.parent),
            branches: ids_of(self.branches@),
            prev: opt_id(self.prev),
            next: opt_id(self.next),
            referents: ids_of(self.referents@).to_set(),
            references: ids_of(self.references@),
            metadata: self.metadata@,
        }
    }
}

/// The identifiers of an optional list, none when it is absent.
pub open spec fn listed(o: Option<Vec<NoteID>>) -> Seq<Seq<char>> {
    match o {
        Some(v) => ids_of(v@),
        None => Seq::empty(),
    }
}

/// The note a row denotes, with the given content: sets of identifiers are
/// kept in the order of their first occurrence, and at most one next note.
pub open spec fn row_note<V>(row: PostgreSQLNoteRowJoined, inner: V) -> ComputedView<V> {
    ComputedView {
        title: row.title@,
        inner,
        id: row.id@,
        revision: row.revision@,
        is_current: row.is_current,
        parent: opt_id(row.parent),
        branches: dedup(listed(row.branches)),
        prev: opt_id(row.prev),
        next: if listed(row.next).len() == 0 {
            None
        } else {
            Some(listed(row.next)[0])
        },
        referents: ids_of(row.referents@).to_set(),
        references: dedup(listed(row.references)),
        metadata: MetadataView {
            schema_version: row.metadata_schema_version as u64,
            created_at: row.metadata_created_at,
            modified_at: row.metadata_modified_at,
            tags: dedup(texts_of(row.metadata_tags@)),
            custom_metadata: row.metadata_custom_metadata@,
        },
    }
}

impl PostgreSQLNoteRowJoined {
    /// The note this row denotes, whose content is `note_inner` (read from
    /// the row's text by the caller). A note has at most one next note.
    pub fn into_note<T: NoteType>(self, note_inner: T) -> (r: PostgreSQLNote<T>)
        requires
            listed(self.next).len() <= 1,
        ensures
            r@ == row_note(self, note_inner@),
    {
        let ghost row = self;
        let branches = match &self.branches {
            Some(b) => dedup_ids(b),
            None => {
                let e: Vec<NoteID> = Vec::new();
                assert(ids_of(e@) =~= dedup(Seq::<Seq<char>>::empty()));
                e
            },
        };
        let next = match &self.next {
            Some(n) => {
                if n.len() == 0 {
                    None
                } else {
                    Some(n[0].clone())
                }
            },
            None => None,
        };
        let references = match &self.references {
            Some(r) => dedup_ids(r),
            None => {
                let e: Vec<NoteID> = Vec::new();
                assert(ids_of(e@) =~= dedup(Seq::<Seq<char>>::empty()));
                e
            },
        };
        let metadata = NoteMetadata {
            schema_version: self.metadata_schema_version as u64,
            created_at: self.metadata_created_at,
            modified_at: self.metadata_modified_at,
            tags: dedup_texts(&self.metadata_tags),
            custom_metadata: self.metadata_custom_metadata,
        };
        let note = PostgreSQLNote {
            title: self.title,
            note_inner,
            id: self.id,
            revision: self.revision,
            parent: self.parent,
            branches,
            prev: self.prev,
            next,
            referents: self.referents,
            references,
            metadata,
            is_current: self.is_current,
        };
        proof {
            assert(note@.branches == row_note(row, note_inner@).branches);
            assert(note@ == row_note(row, note_inner@));
        }
        note
    }
}

impl<T: NoteType> Note<T> for PostgreSQLNote<T> {
    fn get_title(&self) -> (r: String)
        ensures
            r@ == self@.title,
    {
        self.title.clone()
    }

    fn get_note_inner(&self) -> (r: T)
        ensures
            r@ == self@.inner,
    {
        self.note_inner.duplicate()
    }

    fn get_id(&self) -> (r: NoteID)
        ensures
            r@ == self@.id,
    {
        self.id.clone()
    }

    fn get_revision(&self) -> (r: Revision)
        ensures
            r@ == self@.revision,
    {
        self.revision.clone()
    }

    fn get_parent(&self) -> (r: Option<NoteID>)
        ensures
            opt_id(r) == self@.parent,
    {
        copy_opt(&self.parent)
    }

    fn get_branches(&self) -> (r: Vec<NoteID>)
        ensures
            ids_of(r@) == self@.branches,
    {
        copy_ids(&self.branches)
    }

    fn get_prev(&self) -> (r: Option<NoteID>)
        ensures
            opt_id(r) == self@.prev,
    {
        copy_opt(&self.prev)
    }

    fn get_next(&self) -> (r: Option<NoteID>)
        ensures
            opt_id(r) == self@.next,
    {
        copy_opt(&self.next)
    }

    fn get_references(&self) -> (r: Vec<NoteID>)
        ensures
            ids_of(r@) == self@.references,
    {
        copy_ids(&self.references)
    }

    fn get_referents(&self) -> (r: Vec<NoteID>)
        ensures
            ids_of(r@).to_set() == self@.referents,
    {
        copy_ids(&self.referents)
    }

    fn get_metadata(&self) -> (r: NoteMetadata)
        ensures
            r@ == self@.metadata,
    {
        self.metadata.duplicate()
    }

    fn is_current(&self) -> (r: bool)
        ensures
            r == self@.is_current,
    {
        self.is_current
    }
}

fn copy_opt(o: &Option<NoteID>) -> (r: Option<NoteID>)
    ensures
        opt_id(r) == opt_id(*o),
{
    match o {
        Some(n) => Some(n.clone()),
        None => None,
    }
}

} // verus!
