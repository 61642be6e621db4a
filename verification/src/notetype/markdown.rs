//! Markdown notes, whose referents are the Notegraf links in their bodies.
use crate::note::NoteID;
use crate::notetype::{ids_of, insert_id, NoteType};
use crate::text::{chars_of, string_of};
use crate::url::{notegraf_url_outcome, NotegrafURL, UrlOutcome};
use crate::notetype::cmark::{
    cmark_text, debugs_of, event_pairs, markdown_events, markdown_events_of, relinked,
    relinked_debug, render_markdown, text_debug, text_event, RawEvent,
};
use vstd::prelude::*;

verus! {

/// Errors of Markdown notes.
#[derive(Debug)]
pub enum MarkdownNoteError {
    /// The Markdown text could not be written.
    FormatError(std::fmt::Error),
}

/// A link of a Markdown text: whether it is an autolink such as
/// `<notegraf:/note/x>`, its destination and its title.
pub struct MdLink {
    pub autolink: bool,
    pub destination: String,
    pub title: String,
}

/// What Notegraf reads of a Markdown event: link starts and ends, text, and
/// nothing of the other events.
pub enum MdInfo {
    LinkStart(MdLink),
    LinkEnd(MdLink),
    Text(String),
    Other,
}

/// A Markdown event: what Notegraf reads of it, and the event itself.
pub struct MdEvent<'a> {
    pub info: MdInfo,
    pub raw: RawEvent<'a>,
}

/// The view of an [`MdLink`].
pub struct LinkView {
    pub autolink: bool,
    pub destination: Seq<char>,
    pub title: Seq<char>,
}

/// The view of an [`MdInfo`].
pub enum MdEventView {
    LinkStart(LinkView),
    LinkEnd(LinkView),
    Text(Seq<char>),
    Other,
}

impl View for MdLink {
    type V = LinkView;

    open spec fn view(&self) -> LinkView {
        LinkView { autolink: self.autolink, destination: self.destination@, title: self.title@ }
    }
}

impl View for MdInfo {
    type V = MdEventView;

    open spec fn view(&self) -> MdEventView {
        match self {
            MdInfo::LinkStart(l) => MdEventView::LinkStart(l@),
            MdInfo::LinkEnd(l) => MdEventView::LinkEnd(l@),
            MdInfo::Text(t) => MdEventView::Text(t@),
            MdInfo::Other => MdEventView::Other,
        }
    }
}

/// What Notegraf reads of each of the events.
pub open spec fn events_view<'a>(s: Seq<MdEvent<'a>>) -> Seq<MdEventView> {
    s.map_values(|e: MdEvent<'a>| e.info@)
}

/// What Notegraf reads of each of the events of `s`.
pub open spec fn infos(s: Seq<(MdEventView, Seq<char>)>) -> Seq<MdEventView> {
    s.map_values(|p: (MdEventView, Seq<char>)| p.0)
}

/// The option bits Notegraf reads Markdown with: tables, footnotes,
/// strikethrough, task lists and smart punctuation.
pub open spec fn notegraf_options() -> u32 {
    62
}

/// The option bits Notegraf reads Markdown with.
pub fn cmark_options() -> (r: u32)
    ensures
        r == notegraf_options(),
{
    62
}

/// A note whose body is a Markdown text.
#[derive(Debug, PartialEq, Eq)]
pub struct MarkdownNote {
    body: String,
}

impl View for MarkdownNote {
    type V = Seq<char>;

    closed spec fn view(&self) -> Seq<char> {
        self.body@
    }
}

/// The note a link destination points at, if it is a Notegraf note URL.
pub open spec fn note_of_link(link: Seq<char>) -> Option<Seq<char>> {
    match notegraf_url_outcome(link) {
        UrlOutcome::Note(id) => Some(id),
        _ => None,
    }
}

/// The note an event points at, if it starts a Notegraf note link.
pub open spec fn start_note(e: MdEventView) -> Option<Seq<char>> {
    match e {
        MdEventView::LinkStart(l) => note_of_link(l.destination),
        _ => None,
    }
}

/// The notes the link starts among `evs` point at.
pub open spec fn linked_notes(evs: Seq<MdEventView>) -> Set<Seq<char>> {
    Set::new(
        |id: Seq<char>| exists|i: int| 0 <= i < evs.len() && #[trigger] start_note(evs[i]) == Some(id),
    )
}

/// The destination that replaces `link` when links to `old` are redirected to `new`.
pub open spec fn changed_link(link: Seq<char>, old: Seq<char>, new: Seq<char>) -> Option<
    Seq<char>,
> {
    if note_of_link(link) == Some(old) {
        Some("notegraf:/note/"@ + new)
    } else {
        None
    }
}

/// `s` with every occurrence of `pat`, from left to right and without
/// overlaps, replaced by `rep`, as `str::replace` does.
pub open spec fn replace_all(s: Seq<char>, pat: Seq<char>, rep: Seq<char>) -> Seq<char>
    decreases s.len(),
{
    if pat.len() == 0 {
        if s.len() == 0 {
            rep
        } else {
            rep + seq![s[0]] + replace_all(s.drop_first(), pat, rep)
        }
    } else if s.len() < pat.len() {
        s
    } else if s.take(pat.len() as int) == pat {
        rep + replace_all(s.skip(pat.len() as int), pat, rep)
    } else {
        seq![s[0]] + replace_all(s.drop_first(), pat, rep)
    }
}

/// The state of a rewrite: whether the text of an autolink being rewritten
/// follows, and which text replaces which.
pub struct RewriteState {
    pub in_autolink: bool,
    pub old_text: Seq<char>,
    pub new_text: Seq<char>,
}

/// The view of an event after redirecting links to `old` to `new`.
pub open spec fn rewritten_event(e: MdEventView, st: RewriteState, old: Seq<char>, new: Seq<char>) -> MdEventView {
    match e {
        MdEventView::LinkStart(l) => match changed_link(l.destination, old, new) {
            Some(d) => MdEventView::LinkStart(LinkView { destination: d, ..l }),
            None => e,
        },
        MdEventView::LinkEnd(l) => match changed_link(l.destination, old, new) {
            Some(d) => MdEventView::LinkEnd(LinkView { destination: d, ..l }),
            None => e,
        },
        MdEventView::Text(t) => if st.in_autolink {
            MdEventView::Text(replace_all(t, st.old_text, st.new_text))
        } else {
            e
        },
        MdEventView::Other => e,
    }
}

/// The state after an event.
pub open spec fn next_state(e: MdEventView, st: RewriteState, old: Seq<char>, new: Seq<char>) -> RewriteState {
    match e {
        MdEventView::LinkStart(l) => match changed_link(l.destination, old, new) {
            Some(d) => if l.autolink {
                RewriteState { in_autolink: true, old_text: l.destination, new_text: d }
            } else {
                st
            },
            None => st,
        },
        MdEventView::LinkEnd(l) => match changed_link(l.destination, old, new) {
            Some(d) => if l.autolink {
                RewriteState { in_autolink: false, old_text: Seq::empty(), new_text: Seq::empty() }
            } else {
                st
            },
            None => st,
        },
        _ => st,
    }
}

/// The state after the events `evs`.
pub open spec fn state_after(evs: Seq<MdEventView>, old: Seq<char>, new: Seq<char>) -> RewriteState
    decreases evs.len(),
{
    if evs.len() == 0 {
        RewriteState { in_autolink: false, old_text: Seq::empty(), new_text: Seq::empty() }
    } else {
        next_state(evs.last(), state_after(evs.drop_last(), old, new), old, new)
    }
}

/// The events with links to `old` redirected to `new`; the text of a
/// redirected autolink is rewritten too.
pub open spec fn rewritten_events(evs: Seq<MdEventView>, old: Seq<char>, new: Seq<char>) -> Seq<MdEventView> {
    Seq::new(evs.len(), |i: int| rewritten_event(evs[i], state_after(evs.take(i), old, new), old, new))
}

/// The debug text of an event of view `e` and debug text `debug` after
/// redirecting links to `old` to `new`, in the state `st`.
pub open spec fn rewritten_debug(e: MdEventView, debug: Seq<char>, st: RewriteState, old: Seq<char>, new: Seq<char>) -> Seq<char> {
    match e {
        MdEventView::LinkStart(l) => match changed_link(l.destination, old, new) {
            Some(d) => relinked_debug(debug, d),
            None => debug,
        },
        MdEventView::LinkEnd(l) => match changed_link(l.destination, old, new) {
            Some(d) => relinked_debug(debug, d),
            None => debug,
        },
        MdEventView::Text(t) => if st.in_autolink {
            text_debug(replace_all(t, st.old_text, st.new_text))
        } else {
            debug
        },
        MdEventView::Other => debug,
    }
}

/// The debug texts of the events `evs` after redirecting links to `old` to
/// `new`.
pub open spec fn rewritten_debugs(evs: Seq<(MdEventView, Seq<char>)>, old: Seq<char>, new: Seq<char>) -> Seq<Seq<char>> {
    Seq::new(
        evs.len(),
        |i: int| rewritten_debug(evs[i].0, evs[i].1, state_after(infos(evs).take(i), old, new), old, new),
    )
}

/// The Markdown text of `body` with its links to `old` redirected to `new`,
/// as it is written back.
pub open spec fn markdown_rewrite(body: Seq<char>, old: Seq<char>, new: Seq<char>) -> Seq<char> {
    cmark_text(rewritten_debugs(markdown_events_of(body, notegraf_options(), usize::BITS), old, new))
}

/// `s` with every occurrence of `pat` replaced by `rep`.
pub fn replace_text(s: &String, pat: &String, rep: &String) -> (r: String)
    ensures
        r@ == replace_all(s@, pat@, rep@),
{
    let sv = chars_of(s.as_str());
    let pv = chars_of(pat.as_str());
    let mut out = String::new();
    let mut i: usize = 0;
    assert(sv@.skip(0) =~= sv@);
    assert(out@ + replace_all(sv@, pv@, rep@) =~= replace_all(s@, pat@, rep@));
    while i < sv.len()
        invariant
            i <= sv.len(),
            sv@ == s@,
            pv@ == pat@,
            out@ + replace_all(sv@.skip(i as int), pv@, rep@) == replace_all(s@, pat@, rep@),
        decreases sv.len() - i,
    {
        let ghost rest = sv@.skip(i as int);
        if pv.len() == 0 {
            let ghost before = out@;
            crate::text::push_all(&mut out, rep.as_str());
            crate::text::push_char(&mut out, sv[i]);
            proof {
                assert(rest.drop_first() =~= sv@.skip(i + 1));
                assert(rest[0] == sv@[i as int]);
                assert(out@ + replace_all(sv@.skip(i + 1), pv@, rep@) =~= before + replace_all(
                    rest,
                    pv@,
                    rep@,
                ));
            }
            i += 1;
        } else if sv.len() - i < pv.len() {
            proof {
                assert(out@ + rest =~= out@ + replace_all(rest, pv@, rep@));
            }
            let tail = crate::text::string_of_range(&sv, i, sv.len());
            crate::text::push_all(&mut out, tail.as_str());
            proof {
                assert(sv@.subrange(i as int, sv.len() as int) =~= rest);
                assert(sv@.skip(sv.len() as int) =~= Seq::<char>::empty());
            }
            i = sv.len();
        } else if prefix_matches(&sv, i, &pv) {
            crate::text::push_all(&mut out, rep.as_str());
            proof {
                assert(rest.take(pv@.len() as int) =~= pv@);
                assert(rest.skip(pv@.len() as int) =~= sv@.skip(i + pv.len()));
            }
            i += pv.len();
        } else {
            crate::text::push_char(&mut out, sv[i]);
            proof {
                assert(rest.drop_first() =~= sv@.skip(i + 1));
                assert(rest[0] == sv@[i as int]);
            }
            i += 1;
        }
    }
    proof {
        let e = sv@.skip(sv.len() as int);
        assert(e =~= Seq::<char>::empty());
        if pv@.len() == 0 {
            assert(out@ + replace_all(e, pv@, rep@) == out@ + rep@);
        } else {
            assert(out@ + replace_all(e, pv@, rep@) =~= out@);
        }
    }
    if pv.len() == 0 {
        crate::text::push_all(&mut out, rep.as_str());
    }
    out
}

fn prefix_matches(sv: &Vec<char>, i: usize, pv: &Vec<char>) -> (r: bool)
    requires
        i + pv.len() <= sv.len(),
    ensures
        r == (sv@.skip(i as int).take(pv@.len() as int) == pv@),
{
    let mut k: usize = 0;
    while k < pv.len()
        invariant
            i + pv.len() <= sv.len(),
            k <= pv.len(),
            forall|j: int| 0 <= j < k ==> sv@[i + j] == pv@[j],
        decreases pv.len() - k,
    {
        if sv[i + k] != pv[k] {
            assert(sv@.skip(i as int).take(pv@.len() as int)[k as int] != pv@[k as int]);
            return false;
        }
        k += 1;
    }
    assert(sv@.skip(i as int).take(pv@.len() as int) =~= pv@);
    true
}

impl MarkdownNote {
    /// A note with the given Markdown body.
    pub fn new(body: String) -> (r: Self)
        ensures
            r@ == body@,
    {
        MarkdownNote { body }
    }

    /// The Markdown body.
    pub fn body(&self) -> (r: &str)
        ensures
            r@ == self@,
    {
        self.body.as_str()
    }

    /// The note a link points at, if it is a Notegraf note URL.
    pub fn extract_note_id_from_url(link: &str) -> (r: Option<NoteID>)
        ensures
            r is Some <==> note_of_link(link@) is Some,
            r matches Some(id) ==> Some(id@) == note_of_link(link@),
    {
        let url = NotegrafURL::parse(link);
        if let Ok(NotegrafURL::Note(ref id)) = url {
            Some(id.clone())
        } else {
            None
        }
    }

    /// The link that replaces `link` when links to `old` are redirected to `new`,
    /// or `None` when `link` is not a Notegraf link to `old`.
    pub fn change_note_url(link: &str, old: &NoteID, new: &NoteID) -> (r: Option<String>)
        ensures
            r is Some <==> changed_link(link@, old@, new@) is Some,
            r matches Some(l) ==> Some(l@) == changed_link(link@, old@, new@),
    {
        let url = NotegrafURL::parse(link);
        if let Ok(NotegrafURL::Note(ref id)) = url {
            if id.same(old) {
                Some(NotegrafURL::Note(new.clone()).to_url_string())
            } else {
                None
            }
        } else {
            None
        }
    }

    /// Redirect the links to `old` among `events` to `new`.
    pub fn rewrite_link_events<'a>(events: Vec<MdEvent<'a>>, old: &NoteID, new: &NoteID) -> (r: Vec<MdEvent<'a>>)
        ensures
            events_view(r@) == rewritten_events(events_view(events@), old@, new@),
            debugs_of(r@) == rewritten_debugs(event_pairs(events@), old@, new@),
    {
        let ghost evs = events_view(events@);
        let ghost pairs = event_pairs(events@);
        let ghost orig = events@;
        assert(orig.len() == events.len());
        assert(infos(pairs) =~= evs);
        let ghost target = rewritten_events(evs, old@, new@);
        let ghost dtarget = rewritten_debugs(pairs, old@, new@);
        let mut out: Vec<MdEvent<'a>> = Vec::new();
        let mut in_autolink = false;
        let mut old_text = String::new();
        let mut new_text = String::new();
        let mut rest = events;
        let mut i: usize = 0;
        while rest.len() > 0
            invariant
                i <= orig.len(),
                orig.len() <= usize::MAX,
                rest@ == orig.skip(i as int),
                evs == events_view(orig),
                pairs == event_pairs(orig),
                infos(pairs) == evs,
                target == rewritten_events(evs, old@, new@),
                dtarget == rewritten_debugs(pairs, old@, new@),
                out@.len() == i,
                events_view(out@) == target.take(i as int),
                debugs_of(out@) == dtarget.take(i as int),
                (RewriteState { in_autolink, old_text: old_text@, new_text: new_text@ })
                    == state_after(evs.take(i as int), old@, new@),
            decreases rest.len(),
        {
            let ghost st = RewriteState { in_autolink, old_text: old_text@, new_text: new_text@ };
            proof {
                assert(rest@.len() == orig.len() - i);
                assert(rest@[0] == orig[i as int]);
                assert(evs.take(i + 1).drop_last() =~= evs.take(i as int));
                assert(evs[i as int] == orig[i as int].info@);
                assert(pairs[i as int] == (orig[i as int].info@, orig[i as int].raw@));
            }
            let e = rest.remove(0);
            let MdEvent { info, raw } = e;
            let ne = match info {
                MdInfo::LinkStart(l) => {
                    match MarkdownNote::change_note_url(l.destination.as_str(), old, new) {
                        Some(d) => {
                            if l.autolink {
                                in_autolink = true;
                                old_text = l.destination.clone();
                                new_text = d.clone();
                            }
                            let raw = relinked(raw, d.clone());
                            MdEvent { info: MdInfo::LinkStart(MdLink { autolink: l.autolink, destination: d, title: l.title }), raw }
                        },
                        None => MdEvent { info: MdInfo::LinkStart(l), raw },
                    }
                },
                MdInfo::LinkEnd(l) => {
                    match MarkdownNote::change_note_url(l.destination.as_str(), old, new) {
                        Some(d) => {
                            if l.autolink {
                                in_autolink = false;
                                old_text = String::new();
                                new_text = String::new();
                            }
                            let raw = relinked(raw, d.clone());
                            MdEvent { info: MdInfo::LinkEnd(MdLink { autolink: l.autolink, destination: d, title: l.title }), raw }
                        },
                        None => MdEvent { info: MdInfo::LinkEnd(l), raw },
                    }
                },
                MdInfo::Text(t) => {
                    if in_autolink {
                        let changed = replace_text(&t, &old_text, &new_text);
                        let raw = text_event(changed.clone());
                        MdEvent { info: MdInfo::Text(changed), raw }
                    } else {
                        MdEvent { info: MdInfo::Text(t), raw }
                    }
                },
                MdInfo::Other => MdEvent { info: MdInfo::Other, raw },
            };
            proof {
                assert(ne.info@ == rewritten_event(evs[i as int], st, old@, new@));
                assert(ne.raw@ == rewritten_debug(pairs[i as int].0, pairs[i as int].1, st, old@, new@));
                assert(target[i as int] == rewritten_event(evs[i as int], state_after(evs.take(i as int), old@, new@), old@, new@));
                assert(dtarget[i as int] == rewritten_debug(pairs[i as int].0, pairs[i as int].1, state_after(infos(pairs).take(i as int), old@, new@), old@, new@));
                assert(events_view(out@.push(ne)) =~= events_view(out@).push(ne.info@));
                assert(debugs_of(out@.push(ne)) =~= debugs_of(out@).push(ne.raw@));
                assert(target.take(i + 1) =~= target.take(i as int).push(target[i as int]));
                assert(dtarget.take(i + 1) =~= dtarget.take(i as int).push(dtarget[i as int]));
            }
            out.push(ne);
            i += 1;
            proof {
                assert(rest@ =~= orig.skip(i as int));
            }
        }
        proof {
            assert(rest@.len() == 0);
            assert(target.take(orig.len() as int) =~= target);
            assert(dtarget.take(orig.len() as int) =~= dtarget);
        }
        out
    }
}

impl NoteType for MarkdownNote {
    type Error = MarkdownNoteError;

    open spec fn readable(v: Seq<char>) -> bool {
        true
    }

    open spec fn referent_ids(v: Seq<char>) -> Set<Seq<char>> {
        linked_notes(infos(markdown_events_of(v, notegraf_options(), usize::BITS)))
    }

    open spec fn text_of(v: Seq<char>) -> Seq<char> {
        v
    }

    open spec fn stored_text(v: Seq<char>) -> Seq<char> {
        v
    }

    fn get_referents(&self) -> (r: Result<Vec<NoteID>, MarkdownNoteError>) {
        let events = markdown_events(self.body.as_str(), cmark_options(), usize::BITS);
        let ghost evs = events_view(events@);
        assert(infos(event_pairs(events@)) =~= evs);
        let mut referents: Vec<NoteID> = Vec::new();
        let mut i: usize = 0;
        while i < events.len()
            invariant
                i <= events.len(),
                evs == events_view(events@),
                ids_of(referents@).no_duplicates(),
                ids_of(referents@).to_set() == linked_notes(evs.take(i as int)),
            decreases events.len() - i,
        {
            let ghost before = ids_of(referents@);
            proof {
                assert(evs[i as int] == events@[i as int].info@);
            }
            if let MdInfo::LinkStart(l) = &events[i].info {
                if let Some(id) = MarkdownNote::extract_note_id_from_url(l.destination.as_str()) {
                    let ghost idv = id@;
                    insert_id(&mut referents, id);
                    proof {
                        if !before.contains(idv) {
                            before.lemma_push_to_set_commute(idv);
                            assert forall|a: int, b: int|
                                0 <= a < b < before.push(idv).len() implies before.push(idv)[a]
                                != before.push(idv)[b] by {
                                if b == before.len() {
                                    assert(before.contains(before[a]));
                                }
                            }
                        } else {
                            assert(before.to_set().insert(idv) =~= before.to_set());
                        }
                    }
                }
            }
            proof {
                let t = evs.take(i + 1);
                assert forall|id: Seq<char>| #[trigger] linked_notes(t).contains(id) <==> (
                linked_notes(evs.take(i as int)).contains(id) || start_note(evs[i as int]) == Some(
                    id,
                )) by {
                    if linked_notes(t).contains(id) {
                        let j = choose|j: int| 0 <= j < t.len() && #[trigger] start_note(t[j]) == Some(id);
                        if j < i {
                            assert(start_note(evs.take(i as int)[j]) == Some(id));
                        }
                    }
                    if linked_notes(evs.take(i as int)).contains(id) {
                        let j = choose|j: int|
                            0 <= j < i && #[trigger] start_note(evs.take(i as int)[j]) == Some(id);
                        assert(start_note(t[j]) == Some(id));
                    }
                    if start_note(evs[i as int]) == Some(id) {
                        assert(start_note(t[i as int]) == Some(id));
                    }
                }
                assert(ids_of(referents@).to_set() =~= linked_notes(t));
            }
            i += 1;
        }
        proof {
            assert(evs.take(events.len() as int) =~= evs);
        }
        Ok(referents)
    }

    fn update_referent(&mut self, old_referent: NoteID, new_referent: NoteID) -> (r: Result<
        (),
        MarkdownNoteError,
    >)
        ensures
            r is Ok,
            final(self)@ == markdown_rewrite(old(self)@, old_referent@, new_referent@),
    {
        let rendered = {
            let events = markdown_events(self.body.as_str(), cmark_options(), usize::BITS);
            let rewritten = MarkdownNote::rewrite_link_events(events, &old_referent, &new_referent);
            render_markdown(rewritten)
        };
        match rendered {
            Ok(buf) => {
                self.body = buf;
                Ok(())
            },
            Err(e) => Err(MarkdownNoteError::FormatError(e)),
        }
    }

    fn duplicate(&self) -> (r: Self) {
        MarkdownNote { body: self.body.clone() }
    }

    fn search_text(&self) -> (r: String) {
        self.body.clone()
    }

    fn to_text(&self) -> (r: String) {
        self.body.clone()
    }

    fn error_message(e: &MarkdownNoteError) -> (r: String)
        ensures
            r@ == "format error"@,
    {
        "format error".to_owned()
    }
}

/// Every Notegraf note link of a Markdown body counts: a note is a referent
/// of the body exactly when some link start among the events of the body has
/// a destination that is a Notegraf URL of that note, wherever the link
/// stands and whatever links come before it.
pub proof fn law_markdown_referents(body: Seq<char>, id: Seq<char>)
    ensures
        ({
            let evs = infos(markdown_events_of(body, notegraf_options(), usize::BITS));
            MarkdownNote::referent_ids(body).contains(id) <==> exists|i: int|
                0 <= i < evs.len() && ((#[trigger] evs[i]) matches MdEventView::LinkStart(l)
                    && note_of_link(l.destination) == Some(id))
        }),
{
    let evs = infos(markdown_events_of(body, notegraf_options(), usize::BITS));
    if MarkdownNote::referent_ids(body).contains(id) {
        let i = choose|i: int| 0 <= i < evs.len() && #[trigger] start_note(evs[i]) == Some(id);
        assert(evs[i] matches MdEventView::LinkStart(l) && note_of_link(l.destination) == Some(id));
    }
    if exists|i: int|
        0 <= i < evs.len() && ((#[trigger] evs[i]) matches MdEventView::LinkStart(l)
            && note_of_link(l.destination) == Some(id)) {
        let i = choose|i: int|
            0 <= i < evs.len() && ((#[trigger] evs[i]) matches MdEventView::LinkStart(l)
                && note_of_link(l.destination) == Some(id));
        assert(start_note(evs[i]) == Some(id));
    }
}

/// Redirecting links to `old` redirects each of them, whatever links come
/// before it: every link start and link end whose destination is a Notegraf
/// URL of `old` gets the destination `notegraf:/note/<new>`, keeping its kind
/// and title, and its event is rebuilt with that destination; every other
/// link start or end, and every event that is neither a link nor a text,
/// stays as it was.
pub proof fn law_rewrite_every_link(evs: Seq<(MdEventView, Seq<char>)>, old: Seq<char>, new: Seq<char>, i: int)
    requires
        0 <= i < evs.len(),
    ensures
        ({
            let r = rewritten_events(infos(evs), old, new);
            let d = rewritten_debugs(evs, old, new);
            let dest = "notegraf:/note/"@ + new;
            &&& r.len() == evs.len() && d.len() == evs.len()
            &&& evs[i].0 matches MdEventView::LinkStart(l) ==> if note_of_link(l.destination) == Some(old) {
                &&& r[i] == MdEventView::LinkStart(LinkView { autolink: l.autolink, destination: dest, title: l.title })
                &&& d[i] == relinked_debug(evs[i].1, dest)
            } else {
                r[i] == evs[i].0 && d[i] == evs[i].1
            }
            &&& evs[i].0 matches MdEventView::LinkEnd(l) ==> if note_of_link(l.destination) == Some(old) {
                &&& r[i] == MdEventView::LinkEnd(LinkView { autolink: l.autolink, destination: dest, title: l.title })
                &&& d[i] == relinked_debug(evs[i].1, dest)
            } else {
                r[i] == evs[i].0 && d[i] == evs[i].1
            }
            &&& evs[i].0 is Other ==> r[i] == evs[i].0 && d[i] == evs[i].1
        }),
{
    assert(infos(evs)[i] == evs[i].0);
}

/// Redirecting the links of a Markdown body writes back the events of the
/// body, one for one, with every link start and end to `old` rebuilt with
/// the destination `notegraf:/note/<new>`, and every other link and every
/// event that is neither a link nor a text as it was.
pub proof fn law_markdown_rewrite(body: Seq<char>, old: Seq<char>, new: Seq<char>)
    ensures
        ({
            let evs = markdown_events_of(body, notegraf_options(), usize::BITS);
            let dest = "notegraf:/note/"@ + new;
            exists|d: Seq<Seq<char>>| {
                &&& markdown_rewrite(body, old, new) == cmark_text(d)
                &&& d.len() == evs.len()
                &&& forall|i: int| 0 <= i < evs.len() ==> {
                    &&& ((#[trigger] evs[i]).0 matches MdEventView::LinkStart(l) ==> d[i] == if note_of_link(l.destination) == Some(old) {
                        relinked_debug(evs[i].1, dest)
                    } else {
                        evs[i].1
                    })
                    &&& (evs[i].0 matches MdEventView::LinkEnd(l) ==> d[i] == if note_of_link(l.destination) == Some(old) {
                        relinked_debug(evs[i].1, dest)
                    } else {
                        evs[i].1
                    })
                    &&& (evs[i].0 is Other ==> d[i] == evs[i].1)
                }
            }
        }),
{
    let evs = markdown_events_of(body, notegraf_options(), usize::BITS);
    let d = rewritten_debugs(evs, old, new);
    assert forall|i: int| 0 <= i < evs.len() implies {
        let dest = "notegraf:/note/"@ + new;
        &&& ((#[trigger] evs[i]).0 matches MdEventView::LinkStart(l) ==> d[i] == if note_of_link(l.destination) == Some(old) {
            relinked_debug(evs[i].1, dest)
        } else {
            evs[i].1
        })
        &&& (evs[i].0 matches MdEventView::LinkEnd(l) ==> d[i] == if note_of_link(l.destination) == Some(old) {
            relinked_debug(evs[i].1, dest)
        } else {
            evs[i].1
        })
        &&& (evs[i].0 is Other ==> d[i] == evs[i].1)
    } by {
        law_rewrite_every_link(evs, old, new, i);
    }
    assert(markdown_rewrite(body, old, new) == cmark_text(d));
    assert(d.len() == evs.len());
}

/// The text of a redirected autolink is redirected with it: where an
/// autolink to `old` starts and its text follows, that text has each
/// occurrence of the old destination replaced by `notegraf:/note/<new>`,
/// and its event is rebuilt from the new text.
pub proof fn law_rewrite_autolink_text(evs: Seq<(MdEventView, Seq<char>)>, old: Seq<char>, new: Seq<char>, i: int)
    requires
        0 <= i,
        i + 1 < evs.len(),
        evs[i].0 matches MdEventView::LinkStart(l) && l.autolink && note_of_link(l.destination) == Some(old),
        evs[i + 1].0 is Text,
    ensures
        ({
            let r = rewritten_events(infos(evs), old, new);
            let d = rewritten_debugs(evs, old, new);
            let l = evs[i].0->LinkStart_0;
            let t = replace_all(evs[i + 1].0->Text_0, l.destination, "notegraf:/note/"@ + new);
            &&& r[i + 1] == MdEventView::Text(t)
            &&& d[i + 1] == text_debug(t)
        }),
{
    let v = infos(evs);
    assert(v[i] == evs[i].0);
    assert(v[i + 1] == evs[i + 1].0);
    assert(v.take(i + 1).drop_last() =~= v.take(i));
    assert(v.take(i + 1).last() == v[i]);
    let st = state_after(v.take(i + 1), old, new);
    assert(st.in_autolink);
}

/// Whether an event starts an autolink to `old`.
pub open spec fn starts_autolink_to(e: MdEventView, old: Seq<char>) -> bool {
    e matches MdEventView::LinkStart(l) && l.autolink && note_of_link(l.destination) == Some(old)
}

/// Before any autolink to `old` has started, no autolink text is being rewritten.
proof fn lemma_no_autolink_yet(e: Seq<MdEventView>, old: Seq<char>, new: Seq<char>)
    requires
        forall|j: int| 0 <= j < e.len() ==> !starts_autolink_to(#[trigger] e[j], old),
    ensures
        !state_after(e, old, new).in_autolink,
    decreases e.len(),
{
    if e.len() > 0 {
        let p = e.drop_last();
        assert forall|j: int| 0 <= j < p.len() implies !starts_autolink_to(#[trigger] p[j], old) by {
            assert(p[j] == e[j]);
        }
        lemma_no_autolink_yet(p, old, new);
        assert(!starts_autolink_to(e[e.len() - 1], old));
    }
}

/// Redirecting leaves a text alone where no autolink to `old` starts
/// before it: its view and its event stay as they were.
pub proof fn law_rewrite_keeps_text(evs: Seq<(MdEventView, Seq<char>)>, old: Seq<char>, new: Seq<char>, i: int)
    requires
        0 <= i < evs.len(),
        evs[i].0 is Text,
        forall|j: int| 0 <= j < i ==> !starts_autolink_to(#[trigger] evs[j].0, old),
    ensures
        rewritten_events(infos(evs), old, new)[i] == evs[i].0,
        rewritten_debugs(evs, old, new)[i] == evs[i].1,
{
    let v = infos(evs);
    let e = v.take(i);
    assert forall|j: int| 0 <= j < e.len() implies !starts_autolink_to(#[trigger] e[j], old) by {
        assert(e[j] == evs[j].0);
    }
    lemma_no_autolink_yet(e, old, new);
    assert(v[i] == evs[i].0);
}

impl From<String> for MarkdownNote {
    fn from(note: String) -> (r: MarkdownNote)
        ensures
            r@ == note@,
    {
        MarkdownNote { body: note }
    }
}

impl vstd::std_specs::convert::FromSpecImpl<String> for MarkdownNote {
    open spec fn obeys_from_spec() -> bool {
        true
    }

    closed spec fn from_spec(v: String) -> MarkdownNote {
        MarkdownNote { body: v }
    }
}

impl<'a> From<&'a str> for MarkdownNote {
    fn from(note: &'a str) -> (r: MarkdownNote)
        ensures
            r@ == note@,
    {
        MarkdownNote::new(note.to_owned())
    }
}

impl<'a> vstd::std_specs::convert::FromSpecImpl<&'a str> for MarkdownNote {
    open spec fn obeys_from_spec() -> bool {
        false
    }

    open spec fn from_spec(v: &'a str) -> MarkdownNote {
        choose|n: MarkdownNote| n@ == v@
    }
}

impl From<MarkdownNote> for String {
    fn from(note: MarkdownNote) -> (r: String)
        ensures
            r@ == note@,
    {
        note.body
    }
}

impl vstd::std_specs::convert::FromSpecImpl<MarkdownNote> for String {
    open spec fn obeys_from_spec() -> bool {
        true
    }

    closed spec fn from_spec(v: MarkdownNote) -> String {
        v.body
    }
}

} // verus!
