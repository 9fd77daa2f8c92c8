//! Rendering a markdown document for the terminal: headings bold (level 1 and 2 also cyan),
//! code blocks dark gray, inline code green in backquotes, emphasis italic, strong bold, and
//! paragraphs ended by a newline except inside tables.

use vstd::prelude::*;
use pulldown_cmark::{Event, Tag, TagEnd};
use crate::text::{chars_of, push_all, string_of};

verus! {

/// The markdown events the renderer reads, in document order.
#[derive(Clone, Debug)]
pub enum MdEvent {
    StartHeading(u8),
    StartCodeBlock,
    StartTable,
    StartEmphasis,
    StartStrong,
    EndHeading,
    EndCodeBlock,
    EndParagraph,
    EndTable,
    EndEmphasis,
    EndStrong,
    Text(String),
    Code(String),
    SoftBreak,
    HardBreak,
    Other,
}

/// A markdown event as plain values.
pub enum MdEventView {
    StartHeading(u8),
    StartCodeBlock,
    StartTable,
    StartEmphasis,
    StartStrong,
    EndHeading,
    EndCodeBlock,
    EndParagraph,
    EndTable,
    EndEmphasis,
    EndStrong,
    Text(Seq<char>),
    Code(Seq<char>),
    SoftBreak,
    HardBreak,
    Other,
}

pub open spec fn md_event_view(e: MdEvent) -> MdEventView {
    match e {
        MdEvent::StartHeading(l) => MdEventView::StartHeading(l),
        MdEvent::StartCodeBlock => MdEventView::StartCodeBlock,
        MdEvent::StartTable => MdEventView::StartTable,
        MdEvent::StartEmphasis => MdEventView::StartEmphasis,
        MdEvent::StartStrong => MdEventView::StartStrong,
        MdEvent::EndHeading => MdEventView::EndHeading,
        MdEvent::EndCodeBlock => MdEventView::EndCodeBlock,
        MdEvent::EndParagraph => MdEventView::EndParagraph,
        MdEvent::EndTable => MdEventView::EndTable,
        MdEvent::EndEmphasis => MdEventView::EndEmphasis,
        MdEvent::EndStrong => MdEventView::EndStrong,
        MdEvent::Text(t) => MdEventView::Text(t@),
        MdEvent::Code(c) => MdEventView::Code(c@),
        MdEvent::SoftBreak => MdEventView::SoftBreak,
        MdEvent::HardBreak => MdEventView::HardBreak,
        MdEvent::Other => MdEventView::Other,
    }
}

pub open spec fn events_view(s: Seq<MdEvent>) -> Seq<MdEventView> {
    s.map_values(|e: MdEvent| md_event_view(e))
}

/// What one event adds to the output, given whether a table is open; and whether one is open
/// after it.
pub open spec fn render_step(ev: MdEventView, in_table: bool) -> (Seq<char>, bool) {
    match ev {
        MdEventView::StartHeading(level) => if level == 1 || level == 2 {
            ("\x1b[1m"@ + "\x1b[36m"@, in_table)
        } else {
            ("\x1b[1m"@, in_table)
        },
        MdEventView::StartCodeBlock => ("\x1b[90m"@, in_table),
        MdEventView::StartTable => (Seq::empty(), true),
        MdEventView::StartEmphasis => ("\x1b[3m"@, in_table),
        MdEventView::StartStrong => ("\x1b[1m"@, in_table),
        MdEventView::EndHeading => ("\x1b[0m\n"@, in_table),
        MdEventView::EndCodeBlock => ("\x1b[0m\n"@, in_table),
        MdEventView::EndParagraph => (if in_table { Seq::empty() } else { "\n"@ }, in_table),
        MdEventView::EndTable => (Seq::empty(), false),
        MdEventView::EndEmphasis => ("\x1b[0m"@, in_table),
        MdEventView::EndStrong => ("\x1b[0m"@, in_table),
        MdEventView::Text(t) => (t, in_table),
        MdEventView::Code(c) => ("\x1b[92m"@ + "`"@ + c + "`"@ + "\x1b[0m"@, in_table),
        MdEventView::SoftBreak => ("\n"@, in_table),
        MdEventView::HardBreak => ("\n"@, in_table),
        MdEventView::Other => (Seq::empty(), in_table),
    }
}

/// The output of the first `n` events and whether a table is open after them.
pub open spec fn render_prefix(evs: Seq<MdEventView>, n: int) -> (Seq<char>, bool)
    decreases n,
{
    if n <= 0 || n > evs.len() {
        (Seq::empty(), false)
    } else {
        let before = render_prefix(evs, n - 1);
        let step = render_step(evs[n - 1], before.1);
        (before.0 + step.0, step.1)
    }
}

/// The terminal text of a markdown document's events.
pub open spec fn rendered(evs: Seq<MdEventView>) -> Seq<char> {
    render_prefix(evs, evs.len() as int).0
}

/// Render a markdown document, given as its events, for the terminal.
pub fn render_markdown_to_terminal(events: &Vec<MdEvent>) -> (r: String)
    ensures
        r@ == rendered(events_view(events@)),
{
    let mut out: Vec<char> = Vec::new();
    let mut in_table = false;
    let mut i: usize = 0;
    while i < events.len()
        invariant
            i <= events.len(),
            (out@, in_table) == render_prefix(events_view(events@), i as int),
        decreases events.len() - i,
    {
        let ghost before = out@;
        match &events[i] {
            MdEvent::StartHeading(level) => {
                push_all(&mut out, chars_of("\x1b[1m").as_slice());
                if *level == 1 || *level == 2 {
                    push_all(&mut out, chars_of("\x1b[36m").as_slice());
                }
            },
            MdEvent::StartCodeBlock => push_all(&mut out, chars_of("\x1b[90m").as_slice()),
            MdEvent::StartTable => {
                in_table = true;
            },
            MdEvent::StartEmphasis => push_all(&mut out, chars_of("\x1b[3m").as_slice()),
            MdEvent::StartStrong => push_all(&mut out, chars_of("\x1b[1m").as_slice()),
            MdEvent::EndHeading => push_all(&mut out, chars_of("\x1b[0m\n").as_slice()),
            MdEvent::EndCodeBlock => push_all(&mut out, chars_of("\x1b[0m\n").as_slice()),
            MdEvent::EndParagraph => {
                if !in_table {
                    push_all(&mut out, chars_of("\n").as_slice());
                }
            },
            MdEvent::EndTable => {
                in_table = false;
            },
            MdEvent::EndEmphasis => push_all(&mut out, chars_of("\x1b[0m").as_slice()),
            MdEvent::EndStrong => push_all(&mut out, chars_of("\x1b[0m").as_slice()),
            MdEvent::Text(t) => push_all(&mut out, chars_of(t.as_str()).as_slice()),
            MdEvent::Code(c) => {
                push_all(&mut out, chars_of("\x1b[92m").as_slice());
                push_all(&mut out, chars_of("`").as_slice());
                push_all(&mut out, chars_of(c.as_str()).as_slice());
                push_all(&mut out, chars_of("`").as_slice());
                push_all(&mut out, chars_of("\x1b[0m").as_slice());
            },
            MdEvent::SoftBreak => push_all(&mut out, chars_of("\n").as_slice()),
            MdEvent::HardBreak => push_all(&mut out, chars_of("\n").as_slice()),
            MdEvent::Other => {},
        }
        assert(out@ =~= before + render_step(
            md_event_view(events@[i as int]),
            render_prefix(events_view(events@), i as int).1,
        ).0);
        i = i + 1;
    }
    string_of(out.as_slice())
}

/// The events `pulldown_cmark` reads from a markdown text, in document order, as plain values.
pub uninterp spec fn md_events(text: Seq<char>) -> Seq<MdEventView>;

/// `pulldown_cmark::Parser::new`: the events of a markdown text, each converted one for one
/// (the tags and events the renderer does not style become `Other`). Nothing more than the
/// name is claimed of them.
#[verifier::external_body]
pub fn markdown_events(text: &str) -> (r: Vec<MdEvent>)
    ensures
        events_view(r@) == md_events(text@),
{
    pulldown_cmark::Parser::new(text).map(md_event_of).collect()
}

/// A markdown event as `pulldown_cmark` reports it.
#[verifier::external_type_specification]
#[verifier::external_body]
pub struct ExMarkdownEvent<'a>(pulldown_cmark::Event<'a>);

/// A tag that opens in a markdown document.
#[verifier::external_type_specification]
#[verifier::external_body]
pub struct ExMarkdownTag<'a>(pulldown_cmark::Tag<'a>);

/// A tag that closes in a markdown document.
#[verifier::external_type_specification]
#[verifier::external_body]
pub struct ExMarkdownTagEnd(pulldown_cmark::TagEnd);

/// The conversion `markdown_events` applies to each event, one variant for one.
#[verifier::external_body]
fn md_event_of(ev: Event) -> MdEvent {
    match ev {
        Event::Start(tag) => md_start_of(tag),
        Event::End(tag) => md_end_of(tag),
        Event::Text(t) => MdEvent::Text(t.to_string()),
        Event::Code(c) => MdEvent::Code(c.to_string()),
        Event::SoftBreak => MdEvent::SoftBreak,
        Event::HardBreak => MdEvent::HardBreak,
        _ => MdEvent::Other,
    }
}

/// The part of `md_event_of` for a tag that opens.
#[verifier::external_body]
fn md_start_of(tag: Tag) -> MdEvent {
    match tag {
        Tag::Heading { level, .. } => MdEvent::StartHeading(level as u8),
        Tag::CodeBlock(_) => MdEvent::StartCodeBlock,
        Tag::Table(_) => MdEvent::StartTable,
        Tag::Emphasis => MdEvent::StartEmphasis,
        Tag::Strong => MdEvent::StartStrong,
        _ => MdEvent::Other,
    }
}

/// The part of `md_event_of` for a tag that closes.
#[verifier::external_body]
fn md_end_of(tag: TagEnd) -> MdEvent {
    match tag {
        TagEnd::Heading(_) => MdEvent::EndHeading,
        TagEnd::CodeBlock => MdEvent::EndCodeBlock,
        TagEnd::Paragraph => MdEvent::EndParagraph,
        TagEnd::Table => MdEvent::EndTable,
        TagEnd::Emphasis => MdEvent::EndEmphasis,
        TagEnd::Strong => MdEvent::EndStrong,
        _ => MdEvent::Other,
    }
}

/// A markdown text rendered for the terminal.
pub fn render_markdown_text(text: &str) -> (r: String)
    ensures
        r@ == rendered(md_events(text@)),
{
    let events = markdown_events(text);
    render_markdown_to_terminal(&events)
}

/// A help topic names a page: it is not empty and holds no path separator.
pub fn repl_topic_ok(topic: &str) -> (r: bool)
    ensures
        r == (topic@.len() > 0 && !topic@.contains('/') && !topic@.contains('\\')),
{
    let t = chars_of(topic);
    if t.len() == 0 {
        return false;
    }
    let mut i: usize = 0;
    while i < t.len()
        invariant
            i <= t.len(),
            t@ == topic@,
            forall|j: int| 0 <= j < i ==> t@[j] != '/' && t@[j] != '\\',
        decreases t.len() - i,
    {
        if t[i] == '/' || t[i] == '\\' {
            assert(topic@[i as int] == t[i as int]);
            return false;
        }
        i = i + 1;
    }
    true
}

/// The page of help topic `topic` in language `lang`: `docs/repl/<lang>/<topic>.md`.
pub fn repl_doc_path(lang: &str, topic: &str) -> (r: String)
    ensures
        r@ == "docs/repl/"@ + lang@ + "/"@ + topic@ + ".md"@,
{
    let mut v = chars_of("docs/repl/");
    push_all(&mut v, chars_of(lang).as_slice());
    push_all(&mut v, chars_of("/").as_slice());
    push_all(&mut v, chars_of(topic).as_slice());
    push_all(&mut v, chars_of(".md").as_slice());
    string_of(v.as_slice())
}

} // verus!
