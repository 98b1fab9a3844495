//! mdbook-asciidoc: the book as AsciiDoc.
use vstd::prelude::*;
use crate::markdown::{markdown_events, parse_events, MdEvent, MdEventView};
use crate::preprocessors::svgbob::info_text;

verus! {

broadcast use vstd::string::group_string_axioms;

/// The renderer.
pub struct AsciiDocRenderer;

impl AsciiDocRenderer {
    /// The name mdbook knows the renderer by.
    pub fn name(&self) -> (r: &'static str)
        ensures
            r@ == "asciidoc"@,
    {
        "asciidoc"
    }
}

/// What one Markdown event becomes in AsciiDoc: a heading opens with as
/// many `=` as its level and a space; a code block is a `[source,lang]`
/// block between `----` lines; a list item starts with `* `; a link is its
/// destination followed by its text in brackets; inline code goes between
/// backquotes; a hard break is ` +`; paragraphs end with a blank line; the
/// other events write nothing.
pub open spec fn adoc_event(e: MdEventView) -> Seq<char> {
    match e {
        MdEventView::HeadingStart(l) => Seq::new(l as nat, |_i: int| '=') + " "@,
        MdEventView::HeadingEnd => "\n"@,
        MdEventView::ParagraphEnd => "\n\n"@,
        MdEventView::CodeStart(info) => "[source,"@ + info_text(info) + "]\n----\n"@,
        MdEventView::CodeEnd => "----\n\n"@,
        MdEventView::ListEnd => "\n"@,
        MdEventView::ItemStart => "* "@,
        MdEventView::ItemEnd => "\n"@,
        MdEventView::LinkStart(d) => d + "["@,
        MdEventView::LinkEnd => "]"@,
        MdEventView::Text(t) => t,
        MdEventView::Code(t) => "`"@ + t + "`"@,
        MdEventView::SoftBreak => "\n"@,
        MdEventView::HardBreak => " +\n"@,
        MdEventView::Other => seq![],
    }
}

/// The AsciiDoc of the events from `i` on.
pub open spec fn adoc_from(evs: Seq<MdEventView>, i: int) -> Seq<char>
    decreases evs.len() - i,
{
    if i < 0 || i >= evs.len() {
        seq![]
    } else {
        adoc_event(evs[i]) + adoc_from(evs, i + 1)
    }
}

/// The AsciiDoc of a Markdown text, event by event.
pub open spec fn asciidoc_of(evs: Seq<MdEventView>) -> Seq<char> {
    adoc_from(evs, 0)
}

/// Appends the AsciiDoc of one event.
fn push_event(out: &mut String, e: &MdEvent)
    ensures
        final(out)@ == old(out)@ + adoc_event(e@),
{
    let ghost o = out@;
    match e {
        MdEvent::HeadingStart(l) => {
            let mut k: u8 = 0;
            while k < *l
                invariant
                    k <= *l,
                    out@ == o + Seq::new(k as nat, |_i: int| '='),
                decreases *l - k,
            {
                crate::text::push_char(out, '=');
                k = k + 1;
                assert(out@ =~= o + Seq::new(k as nat, |_i: int| '='));
            }
            out.append(" ");
        },
        MdEvent::HeadingEnd => out.append("\n"),
        MdEvent::ParagraphEnd => out.append("\n\n"),
        MdEvent::CodeStart(info) => {
            out.append("[source,");
            match info {
                Some(t) => out.append(t.as_str()),
                None => {},
            }
            out.append("]\n----\n");
            assert(out@ =~= o + ("[source,"@ + info_text(e@->CodeStart_0) + "]\n----\n"@));
        },
        MdEvent::CodeEnd => out.append("----\n\n"),
        MdEvent::ListEnd => out.append("\n"),
        MdEvent::ItemStart => out.append("* "),
        MdEvent::ItemEnd => out.append("\n"),
        MdEvent::LinkStart(d) => {
            out.append(d.as_str());
            out.append("[");
            assert(out@ =~= o + (d@ + "["@));
        },
        MdEvent::LinkEnd => out.append("]"),
        MdEvent::Text(t) => out.append(t.as_str()),
        MdEvent::Code(t) => {
            out.append("`");
            out.append(t.as_str());
            out.append("`");
            assert(out@ =~= o + ("`"@ + t@ + "`"@));
        },
        MdEvent::SoftBreak => out.append("\n"),
        MdEvent::HardBreak => out.append(" +\n"),
        MdEvent::Other => {
            assert(out@ =~= o + seq![]);
        },
    }
}

/// Converts a chapter's Markdown to AsciiDoc (see `asciidoc_of`), reading
/// it with pulldown-cmark.
pub fn markdown_to_asciidoc(markdown: &str) -> (r: String)
    ensures
        r@ == asciidoc_of(markdown_events(markdown@)),
{
    let evs = parse_events(markdown);
    let ghost ev = evs@.map_values(|e: MdEvent| e@);
    let mut out = String::new();
    let mut i: usize = 0;
    while i < evs.len()
        invariant
            i <= evs.len(),
            ev == evs@.map_values(|e: MdEvent| e@),
            ev == markdown_events(markdown@),
            asciidoc_of(ev) == out@ + adoc_from(ev, i as int),
        decreases evs.len() - i,
    {
        let ghost o = out@;
        assert(ev[i as int] == evs@[i as int]@);
        push_event(&mut out, &evs[i]);
        assert(o + adoc_from(ev, i as int) =~= out@ + adoc_from(ev, i + 1));
        i = i + 1;
    }
    assert(out@ + adoc_from(ev, i as int) =~= out@);
    out
}

} // verus!
