//! The two uses the plugins make of pulldown-cmark: rendering Markdown to
//! HTML, and reading the event stream of a chapter.
use vstd::prelude::*;
use pulldown_cmark::{Options, Parser};
use pulldown_cmark::CodeBlockKind::Fenced;
use pulldown_cmark::Event::{
    Code as EvCode, End as EvEnd, HardBreak as EvHard, SoftBreak as EvSoft, Start as EvStart, Text as EvText,
};
use pulldown_cmark::Tag::{CodeBlock as TagCode, Heading as TagHeading, Item as TagItem, Link as TagLink};
use pulldown_cmark::TagEnd::{
    CodeBlock as EndCode, Heading as EndHeading, Item as EndItem, Link as EndLink, List as EndList,
    Paragraph as EndPara,
};
use crate::markdown::MdEvent::{
    Code, CodeEnd, CodeStart, HardBreak, HeadingEnd, HeadingStart, ItemEnd, ItemStart, LinkEnd, LinkStart,
    ListEnd, Other, ParagraphEnd, SoftBreak, Text,
};

verus! {

/// What pulldown-cmark renders for `text`: `html::push_html` over
/// `Parser::new_ext(text, options)`, with tables, footnotes, strikethrough
/// and task lists enabled when `extended`, and with no option otherwise.
pub uninterp spec fn commonmark_html(text: Seq<char>, extended: bool) -> Seq<char>;

/// Renders Markdown to HTML with pulldown-cmark (see `commonmark_html`).
#[verifier::external_body]
pub fn markdown_to_html(text: &str, extended: bool) -> (r: String)
    ensures
        r@ == commonmark_html(text@, extended),
{
    let mut options = Options::empty();
    if extended {
        options.insert(Options::ENABLE_TABLES);
        options.insert(Options::ENABLE_FOOTNOTES);
        options.insert(Options::ENABLE_STRIKETHROUGH);
        options.insert(Options::ENABLE_TASKLISTS);
    }
    let mut output = String::new();
    pulldown_cmark::html::push_html(&mut output, Parser::new_ext(text, options));
    output
}

/// The events of a chapter that the plugins read.
pub enum MdEvent {
    /// A heading opens, with its level (1 to 6).
    HeadingStart(u8),
    /// A heading closes.
    HeadingEnd,
    /// A code block opens: a fenced one with its info string, an indented
    /// one with none.
    CodeStart(Option<String>),
    /// A code block closes.
    CodeEnd,
    /// Text.
    Text(String),
    /// Inline code.
    Code(String),
    /// A soft line break.
    SoftBreak,
    /// A hard line break.
    HardBreak,
    /// A paragraph closes.
    ParagraphEnd,
    /// A list closes.
    ListEnd,
    /// A list item opens.
    ItemStart,
    /// A list item closes.
    ItemEnd,
    /// A link opens, with its destination.
    LinkStart(String),
    /// A link closes.
    LinkEnd,
    /// Any other event.
    Other,
}

/// The mathematical value of an event.
pub enum MdEventView {
    HeadingStart(u8),
    HeadingEnd,
    CodeStart(Option<Seq<char>>),
    CodeEnd,
    Text(Seq<char>),
    Code(Seq<char>),
    SoftBreak,
    HardBreak,
    ParagraphEnd,
    ListEnd,
    ItemStart,
    ItemEnd,
    LinkStart(Seq<char>),
    LinkEnd,
    Other,
}

impl View for MdEvent {
    type V = MdEventView;

    open spec fn view(&self) -> MdEventView {
        match self {
            MdEvent::HeadingStart(l) => MdEventView::HeadingStart(*l),
            MdEvent::HeadingEnd => MdEventView::HeadingEnd,
            MdEvent::CodeStart(i) => MdEventView::CodeStart(
                match i {
                    Some(t) => Some(t@),
                    None => None,
                },
            ),
            MdEvent::CodeEnd => MdEventView::CodeEnd,
            MdEvent::Text(t) => MdEventView::Text(t@),
            MdEvent::Code(t) => MdEventView::Code(t@),
            MdEvent::SoftBreak => MdEventView::SoftBreak,
            MdEvent::HardBreak => MdEventView::HardBreak,
            MdEvent::ParagraphEnd => MdEventView::ParagraphEnd,
            MdEvent::ListEnd => MdEventView::ListEnd,
            MdEvent::ItemStart => MdEventView::ItemStart,
            MdEvent::ItemEnd => MdEventView::ItemEnd,
            MdEvent::LinkStart(d) => MdEventView::LinkStart(d@),
            MdEvent::LinkEnd => MdEventView::LinkEnd,
            MdEvent::Other => MdEventView::Other,
        }
    }
}

/// The events pulldown-cmark's `Parser::new(text)` yields for `text` (no
/// extension enabled), each read as an `MdEventView`.
pub uninterp spec fn markdown_events(text: Seq<char>) -> Seq<MdEventView>;

/// Parses Markdown with pulldown-cmark (see `markdown_events`).
#[verifier::external_body]
pub fn parse_events(text: &str) -> (r: Vec<MdEvent>)
    ensures
        r@.map_values(|e: MdEvent| e@) == markdown_events(text@),
{
    Parser::new(text).map(|ev| match ev {
        EvStart(TagHeading { level, .. }) => HeadingStart(level as u8), EvEnd(EndHeading(_)) => HeadingEnd,
        EvStart(TagCode(Fenced(i))) => CodeStart(Some(i.to_string())), EvStart(TagCode(_)) => CodeStart(None),
        EvEnd(EndCode) => CodeEnd, EvText(t) => Text(t.to_string()), EvCode(t) => Code(t.to_string()),
        EvSoft => SoftBreak, EvHard => HardBreak, EvEnd(EndPara) => ParagraphEnd, EvEnd(EndList(_)) => ListEnd,
        EvStart(TagItem) => ItemStart, EvEnd(EndItem) => ItemEnd, EvEnd(EndLink) => LinkEnd,
        EvStart(TagLink { dest_url, .. }) => LinkStart(dest_url.to_string()),
        _ => Other,
    }).collect()
}

} // verus!
