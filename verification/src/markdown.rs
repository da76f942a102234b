//! The structural events of a Markdown document, as far as a maskfile
//! reads them, and the tokenizer that produces them.

use vstd::prelude::*;
use pulldown_cmark::Event::{Code, End, InlineHtml, Start, Text};
use pulldown_cmark::Tag::{BlockQuote, CodeBlock, Header, List};
use pulldown_cmark::{Options, Parser};
use crate::text::views;

verus! {

/// The model of a [`MarkdownEvent`].
pub enum EventView {
    HeadingStart(i32),
    HeadingEnd,
    CodeBlockStart(Seq<char>),
    CodeBlockEnd(Seq<char>),
    ListStart,
    ListEnd,
    BlockQuoteEnd,
    OtherStart,
    Text(Seq<char>),
    Code(Seq<char>),
    InlineHtml(Seq<char>),
    Other,
}

/// One structural event of a Markdown document.
#[derive(Debug, PartialEq, Eq)]
pub enum MarkdownEvent {
    /// A heading opens; the field is its level.
    HeadingStart(i32),
    /// A heading closes.
    HeadingEnd,
    /// A code block opens; the field is its language tag.
    CodeBlockStart(String),
    /// A code block closes; the field is its language tag.
    CodeBlockEnd(String),
    /// A list opens.
    ListStart,
    /// A list closes.
    ListEnd,
    /// A block quote closes.
    BlockQuoteEnd,
    /// Any other construct opens.
    OtherStart,
    /// Inline text.
    Text(String),
    /// Inline code, without its backticks.
    Code(String),
    /// Inline raw markup.
    InlineHtml(String),
    /// Anything else: another construct closes, a line break and the like.
    Other,
}

impl View for MarkdownEvent {
    type V = EventView;

    open spec fn view(&self) -> EventView {
        match self {
            MarkdownEvent::HeadingStart(level) => EventView::HeadingStart(*level),
            MarkdownEvent::HeadingEnd => EventView::HeadingEnd,
            MarkdownEvent::CodeBlockStart(lang) => EventView::CodeBlockStart(lang@),
            MarkdownEvent::CodeBlockEnd(lang) => EventView::CodeBlockEnd(lang@),
            MarkdownEvent::ListStart => EventView::ListStart,
            MarkdownEvent::ListEnd => EventView::ListEnd,
            MarkdownEvent::BlockQuoteEnd => EventView::BlockQuoteEnd,
            MarkdownEvent::OtherStart => EventView::OtherStart,
            MarkdownEvent::Text(body) => EventView::Text(body@),
            MarkdownEvent::Code(code) => EventView::Code(code@),
            MarkdownEvent::InlineHtml(html) => EventView::InlineHtml(html@),
            MarkdownEvent::Other => EventView::Other,
        }
    }
}

/// Whether every heading of `events` opens at a level from 1 to 6.
pub open spec fn heading_levels_in_range(events: Seq<EventView>) -> bool {
    forall|i: int|
        0 <= i < events.len() ==> (#[trigger] events[i] matches EventView::HeadingStart(level)
            ==> 1 <= level <= 6)
}

/// The events that the Markdown tokenizer reads from a document, with the
/// strikethrough extension switched on.
pub uninterp spec fn markdown_events(text: Seq<char>) -> Seq<EventView>;

/// Runs `pulldown_cmark::Parser::new_ext` over `text` with
/// `Options::ENABLE_STRIKETHROUGH`, and hands on each event of the parser
/// in order. The events are those that the tokenizer reads from that text,
/// whenever it is asked; every heading it reports has a level from 1 to 6.
#[verifier::external_body]
pub(crate) fn tokenize(text: &str) -> (events: Vec<MarkdownEvent>)
    ensures
        views(events@) == markdown_events(text@),
        heading_levels_in_range(views(events@)),
{
    Parser::new_ext(text, Options::ENABLE_STRIKETHROUGH).map(|event| match event {
        Start(Header(level)) => MarkdownEvent::HeadingStart(level),
        Start(CodeBlock(lang)) => MarkdownEvent::CodeBlockStart(lang.to_string()),
        Start(List(_)) => MarkdownEvent::ListStart,
        Start(_) => MarkdownEvent::OtherStart,
        End(Header(_)) => MarkdownEvent::HeadingEnd,
        End(BlockQuote) => MarkdownEvent::BlockQuoteEnd,
        End(CodeBlock(lang)) => MarkdownEvent::CodeBlockEnd(lang.to_string()),
        End(List(_)) => MarkdownEvent::ListEnd,
        Text(body) => MarkdownEvent::Text(body.to_string()),
        InlineHtml(html) => MarkdownEvent::InlineHtml(html.to_string()),
        Code(code) => MarkdownEvent::Code(code.to_string()),
        _ => MarkdownEvent::Other,
    }).collect()
}

} // verus!
