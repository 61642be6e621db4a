//! Markdown events of `pulldown_cmark`, each with its debug text, which pins
//! the event down for the verifier, and the Markdown text written back from
//! them by `pulldown_cmark_to_cmark`.
use crate::notetype::markdown::{MdEvent, MdEventView, MdInfo, MdLink};
use pulldown_cmark::{CowStr, Event, LinkType, Options, Parser, Tag};
use vstd::prelude::*;

verus! {

/// Declares a Markdown event of `pulldown_cmark` to the verifier; its content is opaque.
#[verifier::external_type_specification]
#[verifier::external_body]
pub struct ExEvent<'a>(Event<'a>);

/// Declares the formatting error of `std::fmt` to the verifier.
#[verifier::external_type_specification]
#[verifier::external_body]
pub struct ExFmtError(std::fmt::Error);

/// An event of `pulldown_cmark` together with its `Debug` text. Only the
/// functions of this module make one, and each sets the text from the event,
/// so the text determines the event: every type of an event derives `Debug`.
pub struct RawEvent<'a> {
    event: Event<'a>,
    debug: String,
}

impl<'a> View for RawEvent<'a> {
    type V = Seq<char>;

    closed spec fn view(&self) -> Seq<char> {
        self.debug@
    }
}

/// The views of events: what Notegraf reads of each, and its debug text.
pub open spec fn event_pairs<'a>(s: Seq<MdEvent<'a>>) -> Seq<(MdEventView, Seq<char>)> {
    s.map_values(|e: MdEvent<'a>| (e.info@, e.raw@))
}

/// The debug texts of events.
pub open spec fn debugs_of<'a>(s: Seq<MdEvent<'a>>) -> Seq<Seq<char>> {
    s.map_values(|e: MdEvent<'a>| e.raw@)
}

/// The events `pulldown_cmark` reads from a Markdown text with the given
/// option bits, on a machine whose words have `word_bits` bits: what Notegraf
/// reads of each, and its debug text. (Short texts are stored inline, in a
/// buffer whose size follows the word size, and the debug text shows it.)
pub uninterp spec fn markdown_events_of(body: Seq<char>, options: u32, word_bits: u32) -> Seq<(MdEventView, Seq<char>)>;

/// The debug text of a link event of debug text `debug` whose destination is
/// replaced by `dest`; other events keep theirs.
pub uninterp spec fn relinked_debug(debug: Seq<char>, dest: Seq<char>) -> Seq<char>;

/// The debug text of a text event of text `text`.
pub uninterp spec fn text_debug(text: Seq<char>) -> Seq<char>;

/// The Markdown text `pulldown_cmark_to_cmark::cmark` writes for the events
/// of the given debug texts.
pub uninterp spec fn cmark_text(debugs: Seq<Seq<char>>) -> Seq<char>;

/// Reads a Markdown text into events.
///
/// Trusted: the events are those of `pulldown_cmark::Parser::new_ext` with the
/// option bits given, in order, each with its `Debug` text; link starts and
/// ends and texts are read into their parts. The parser is deterministic, so
/// the result is a function of the text, the bits and the word size of the
/// machine, `word_bits`, named [`markdown_events_of`].
#[verifier::external_body]
pub(crate) fn markdown_events<'a>(body: &'a str, options: u32, word_bits: u32) -> (r: Vec<MdEvent<'a>>)
    requires
        word_bits == usize::BITS,
    ensures
        event_pairs(r@) == markdown_events_of(body@, options, word_bits),
{
    Parser::new_ext(body, Options::from_bits_truncate(options)).map(|e| {
        let info = match &e {
            Event::Start(Tag::Link(t, d, ti)) => MdInfo::LinkStart(MdLink { autolink: matches!(t, LinkType::Autolink), destination: d.to_string(), title: ti.to_string() }),
            Event::End(Tag::Link(t, d, ti)) => MdInfo::LinkEnd(MdLink { autolink: matches!(t, LinkType::Autolink), destination: d.to_string(), title: ti.to_string() }),
            Event::Text(t) => MdInfo::Text(t.to_string()),
            _ => MdInfo::Other,
        };
        MdEvent { info, raw: RawEvent { debug: format!("{:?}", e), event: e } }
    }).collect()
}

/// The event with the destination of a link replaced.
///
/// Trusted: a link start or end is rebuilt with `dest` as its destination,
/// keeping its kind and title; another event stays as it is. The new debug
/// text is a function of the old one and `dest`, named [`relinked_debug`].
#[verifier::external_body]
pub(crate) fn relinked<'a>(raw: RawEvent<'a>, dest: String) -> (r: RawEvent<'a>)
    ensures
        r@ == relinked_debug(raw@, dest@),
{
    let event = match raw.event {
        Event::Start(Tag::Link(t, _, ti)) => Event::Start(Tag::Link(t, CowStr::from(dest), ti)),
        Event::End(Tag::Link(t, _, ti)) => Event::End(Tag::Link(t, CowStr::from(dest), ti)),
        e => e,
    };
    RawEvent { debug: format!("{:?}", event), event }
}

/// A text event.
///
/// Trusted: the event is `pulldown_cmark::Event::Text` of `text`; its debug
/// text is a function of `text`, named [`text_debug`].
#[verifier::external_body]
pub(crate) fn text_event<'a>(text: String) -> (r: RawEvent<'a>)
    ensures
        r@ == text_debug(text@),
{
    let event = Event::Text(CowStr::from(text));
    RawEvent { debug: format!("{:?}", event), event }
}

/// Writes events back as a Markdown text.
///
/// Trusted: `pulldown_cmark_to_cmark::cmark` writes the events into a
/// `String`. Its only errors are those of the writer, and writing to a
/// `String` never fails (as `std::format!` documents), so it succeeds. The
/// text depends on the events alone, which their debug texts determine: it
/// is named [`cmark_text`].
#[verifier::external_body]
pub(crate) fn render_markdown<'a>(events: Vec<MdEvent<'a>>) -> (r: Result<String, std::fmt::Error>)
    ensures
        r is Ok,
        r matches Ok(s) ==> s@ == cmark_text(debugs_of(events@)),
{
    let mut buf = String::new();
    pulldown_cmark_to_cmark::cmark(events.into_iter().map(|e| e.raw.event), &mut buf).map(|_| buf)
}

} // verus!
