//! The markup parser and renderer boundary. Parsing yields an opaque
//! event list; the library reads and rewrites only what its logic
//! needs — the kind of each event and the text it bears — and hands the
//! list back for rendering. The model of a list is one `(kind, text)`
//! pair per event; rendering is named, never stated.

use vstd::prelude::*;
use pulldown_cmark::{CodeBlockKind, Event, Tag, TagEnd};

verus! {

/// Model tag: any event the logic leaves untouched.
pub const EV_OTHER: u32 = 0;

/// Model tag: a text run, with its content.
pub const EV_TEXT: u32 = 1;

/// Model tag: an inline code span, with its content.
pub const EV_CODE: u32 = 2;

/// Model tag: the start of a fenced code block, with its language token.
pub const EV_CB_START_FENCED: u32 = 3;

/// Model tag: the start of an indented code block.
pub const EV_CB_START_OTHER: u32 = 4;

/// Model tag: the end of a code block.
pub const EV_CB_END: u32 = 5;

/// Model tag: a raw inline markup run, with its content.
pub const EV_HTML: u32 = 6;

/// A parsed document: the sequence of markup events of one text.
#[verifier::external_body]
pub struct EventList<'a> {
    events: Vec<pulldown_cmark::Event<'a>>,
}

/// The model of an event list: each event's kind tag and borne text.
pub uninterp spec fn event_model(v: EventList) -> Seq<(u32, Seq<char>)>;

/// What rendering an event list emits.
pub uninterp spec fn rendered_events(v: EventList) -> Seq<char>;

/// What rendering the single event at an index emits.
pub uninterp spec fn rendered_event_at(v: EventList, i: int) -> Seq<char>;

/// The event model of a parsed text.
pub uninterp spec fn md_model(s: Seq<char>) -> Seq<(u32, Seq<char>)>;

/// The plain rendering of a text: parse, then render, nothing else.
pub uninterp spec fn html_of(s: Seq<char>) -> Seq<char>;

/// Parse a text into its markup events.
///
/// Relies on `pulldown_cmark::Parser::new_ext` with the strikethrough,
/// table, footnote, task-list and metadata-block extensions: the events
/// of the text, in document order, whose rendering is the text's plain
/// rendering.
#[verifier::external_body]
pub fn parse_events<'a>(text: &'a str) -> (v: EventList<'a>)
    ensures
        event_model(v) == md_model(text@),
        rendered_events(v) == html_of(text@),
{
    let mut options = pulldown_cmark::Options::empty();
    options.insert(pulldown_cmark::Options::ENABLE_STRIKETHROUGH);
    options.insert(pulldown_cmark::Options::ENABLE_TABLES);
    options.insert(pulldown_cmark::Options::ENABLE_FOOTNOTES);
    options.insert(pulldown_cmark::Options::ENABLE_TASKLISTS);
    options.insert(pulldown_cmark::Options::ENABLE_YAML_STYLE_METADATA_BLOCKS);
    EventList { events: pulldown_cmark::Parser::new_ext(text, options).collect() }
}

/// The number of events of a list.
///
/// Relies on `Vec::len` over the held events.
#[verifier::external_body]
pub fn events_len(v: &EventList) -> (r: usize)
    ensures
        r == event_model(*v).len(),
{
    v.events.len()
}

/// The kind tag and borne text of the event at `i`.
///
/// Relies on the event enum of `pulldown_cmark`: each arm moves the
/// variant's text out.
#[verifier::external_body]
pub fn event_kind_at(v: &EventList, i: usize) -> (r: (u32, String))
    requires
        i < event_model(*v).len(),
    ensures
        r.0 == event_model(*v)[i as int].0,
        r.1@ == event_model(*v)[i as int].1,
{
    match &v.events[i] {
        Event::Text(t) => (EV_TEXT, t.to_string()),
        Event::Code(c) => (EV_CODE, c.to_string()),
        Event::InlineHtml(h) => (EV_HTML, h.to_string()),
        Event::Start(Tag::CodeBlock(CodeBlockKind::Fenced(l))) => (EV_CB_START_FENCED, l.to_string()),
        Event::Start(Tag::CodeBlock(CodeBlockKind::Indented)) => (EV_CB_START_OTHER, String::new()),
        Event::End(TagEnd::CodeBlock) => (EV_CB_END, String::new()),
        _ => (EV_OTHER, String::new()),
    }
}

/// Replace the text event at `i` by the given parts, in order: a `false`
/// part becomes a text run again, a `true` part a raw inline markup run.
///
/// Relies on the event enum of `pulldown_cmark`: each part becomes one
/// event holding exactly its string.
#[verifier::external_body]
pub fn splice_text_event(v: &mut EventList, i: usize, parts: &Vec<(bool, String)>)
    requires
        i < event_model(*old(v)).len(),
        event_model(*old(v))[i as int].0 == EV_TEXT,
    ensures
        event_model(*final(v)) == event_model(*old(v)).subrange(0, i as int) + parts@.map_values(
            |p: (bool, String)|
                if p.0 {
                    (EV_HTML, p.1@)
                } else {
                    (EV_TEXT, p.1@)
                },
        ) + event_model(*old(v)).subrange(i + 1, event_model(*old(v)).len() as int),
{
    let replacement = parts.iter().map(|p: &(bool, String)| {
        if p.0 {
            pulldown_cmark::Event::InlineHtml(p.1.clone().into())
        } else {
            pulldown_cmark::Event::Text(p.1.clone().into())
        }
    });
    v.events.splice(i..i + 1, replacement);
}

/// Render an event list.
///
/// Relies on `pulldown_cmark::html::push_html` over the held events.
#[verifier::external_body]
pub fn render_events(v: EventList) -> (r: String)
    ensures
        r@ == rendered_events(v),
{
    let mut out = String::new();
    pulldown_cmark::html::push_html(&mut out, v.events.into_iter());
    out
}

/// Render the single event at `i`, alone.
///
/// Relies on `pulldown_cmark::html::push_html` over one cloned event.
#[verifier::external_body]
pub fn render_event_at(v: &EventList, i: usize) -> (r: String)
    requires
        i < event_model(*v).len(),
    ensures
        r@ == rendered_event_at(*v, i as int),
{
    let mut out = String::new();
    pulldown_cmark::html::push_html(&mut out, core::iter::once(v.events[i].clone()));
    out
}

/// Render a text as markup, with no citation processing at all.
pub fn render_markdown(text: &str) -> (r: String)
    ensures
        r@ == html_of(text@),
{
    let events = parse_events(text);
    render_events(events)
}

} // verus!
