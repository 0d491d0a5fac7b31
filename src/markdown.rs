use vstd::prelude::*;
use pulldown_cmark::{CodeBlockKind, Event, Tag, TagEnd};
use crate::event::MdEvent;
use crate::render::{document_text, render_events};
use crate::text_util::string_of;

verus! {

#[verifier::external_type_specification]
#[verifier::external_body]
pub struct ExEvent<'a>(pulldown_cmark::Event<'a>);

#[verifier::external_type_specification]
#[verifier::external_body]
pub struct ExTag<'a>(pulldown_cmark::Tag<'a>);

/// A name for the events that the markdown parser finds in `text`, in
/// document order.
pub uninterp spec fn events_of(text: Seq<char>) -> Seq<MdEvent>;

/// Relies on pulldown-cmark's `Parser` with every extension on: the events
/// of the document, in order, each carried over by `from_event`.
#[verifier::external_body]
fn parse_events(text: &str) -> (r: Vec<MdEvent>)
    ensures
        r@ == events_of(text@),
{
    pulldown_cmark::Parser::new_ext(text, pulldown_cmark::Options::all()).map(|e| from_event(&e)).collect()
}

/// Relies on pulldown-cmark's `Event` and `TagEnd` variants: carries an
/// event over, the end of a block by its kind.
#[verifier::external_body]
fn from_event(e: &Event<'_>) -> MdEvent {
    match e {
        Event::Start(tag) => from_start_tag(tag),
        Event::End(TagEnd::Paragraph) => MdEvent::ParagraphEnd,
        Event::End(TagEnd::Heading(_)) => MdEvent::HeadingEnd,
        Event::End(TagEnd::BlockQuote(_)) => MdEvent::BlockQuoteEnd,
        Event::End(TagEnd::CodeBlock) => MdEvent::CodeBlockEnd,
        Event::End(TagEnd::List(_)) => MdEvent::ListEnd,
        Event::End(TagEnd::Item) => MdEvent::ItemEnd,
        Event::End(TagEnd::Emphasis) => MdEvent::EmphasisEnd,
        Event::End(TagEnd::Strong) => MdEvent::StrongEnd,
        Event::End(TagEnd::Strikethrough) => MdEvent::StrikeEnd,
        Event::End(TagEnd::Link) => MdEvent::LinkEnd,
        _ => from_leaf(e),
    }
}

/// Relies on pulldown-cmark's `Tag` variants: carries the start of a block
/// or a span over, with its level, tag, first number or destination.
#[verifier::external_body]
fn from_start_tag(tag: &Tag<'_>) -> MdEvent {
    match tag {
        Tag::Paragraph => MdEvent::ParagraphStart,
        Tag::Heading { level, .. } => MdEvent::HeadingStart(*level as u8),
        Tag::BlockQuote(_) => MdEvent::BlockQuoteStart,
        Tag::CodeBlock(CodeBlockKind::Fenced(l)) => MdEvent::CodeBlockStart(Some(l.to_string())),
        Tag::CodeBlock(CodeBlockKind::Indented) => MdEvent::CodeBlockStart(None),
        Tag::List(n) => MdEvent::ListStart(*n),
        Tag::Item => MdEvent::ItemStart,
        Tag::Emphasis => MdEvent::EmphasisStart,
        Tag::Strong => MdEvent::StrongStart,
        Tag::Strikethrough => MdEvent::StrikeStart,
        Tag::Link { dest_url, .. } => MdEvent::LinkStart(dest_url.to_string()),
        _ => MdEvent::Other,
    }
}

/// Relies on pulldown-cmark's `Event` variants: carries an event that
/// opens and closes nothing over, with its text.
#[verifier::external_body]
fn from_leaf(e: &Event<'_>) -> MdEvent {
    match e {
        Event::Text(t) => MdEvent::Text(t.to_string()),
        Event::Code(t) => MdEvent::Code(t.to_string()),
        Event::Html(t) => MdEvent::Html(t.to_string()),
        Event::SoftBreak => MdEvent::SoftBreak,
        Event::HardBreak => MdEvent::HardBreak,
        Event::Rule => MdEvent::Rule,
        _ => MdEvent::Other,
    }
}

/// The events of a markdown document.
pub fn markdown_events(text: &str) -> (r: Vec<MdEvent>)
    ensures
        r@ == events_of(text@),
{
    parse_events(text)
}

/// The wrap budget for a terminal `cols` columns wide: three quarters of
/// it, at most 100 columns.
pub open spec fn wrap_width_for(cols: nat) -> nat {
    let w = cols * 3 / 4;
    if w < 100 { w } else { 100 }
}

/// Wrap budget for a terminal `cols` columns wide.
pub fn wrap_width(cols: usize) -> (r: usize)
    ensures
        r == wrap_width_for(cols as nat),
{
    if cols >= 200 {
        100
    } else {
        let w = cols * 3 / 4;
        if w < 100 { w } else { 100 }
    }
}

/// Renders a markdown document for a terminal `cols` columns wide: what
/// its events show, text reflowed to the wrap budget.
pub fn render_markdown(text: &str, cols: usize) -> (r: String)
    ensures
        r@ == document_text(events_of(text@), wrap_width_for(cols as nat)),
{
    let events = markdown_events(text);
    let shown = render_events(&events, wrap_width(cols));
    string_of(&shown)
}

} // verus!
