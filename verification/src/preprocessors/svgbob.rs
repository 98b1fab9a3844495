//! mdbook-svgbob: ASCII art rendered to SVG. The chapter is read as
//! Markdown events; a code block whose info string is `bob` becomes the SVG
//! svgbob draws for its text, and the rest of the chapter is written back
//! as Markdown.
use vstd::prelude::*;
use crate::markdown::{markdown_events, parse_events, MdEvent, MdEventView};
use crate::text::{trim, trim_range};

verus! {

broadcast use vstd::string::group_string_axioms;

/// The preprocessor.
pub struct SvgbobPreprocessor;

impl SvgbobPreprocessor {
    /// The name mdbook knows the preprocessor by.
    pub fn name(&self) -> (r: &'static str)
        ensures
            r@ == "mdbook-svgbob"@,
    {
        "mdbook-svgbob"
    }

    /// Every renderer is supported except the one named `not-supported`.
    pub fn supports_renderer(&self, renderer: &str) -> (r: bool)
        ensures
            r == (renderer@ != "not-supported"@),
    {
        !crate::text::str_eq(renderer, "not-supported")
    }
}


/// What svgbob draws for a piece of ASCII art: `svgbob::to_svg_with_settings`
/// with the default settings.
pub uninterp spec fn svgbob_svg(ascii: Seq<char>) -> Seq<char>;

/// Draws ASCII art with svgbob (see `svgbob_svg`).
#[verifier::external_body]
fn render_svg(ascii: &str) -> (r: String)
    ensures
        r@ == svgbob_svg(ascii@),
{
    svgbob::to_svg_with_settings(ascii, &svgbob::Settings::default())
}

/// The info string of a code block (empty for an indented one).
pub open spec fn info_text(info: Option<Seq<char>>) -> Seq<char> {
    match info {
        Some(t) => t,
        None => seq![],
    }
}

/// The chapter written back from event `i` on, inside a `bob` block or not,
/// with the art of the open `bob` block so far: a `bob` block becomes its
/// SVG and a line break; any other code block is fenced again with its info
/// string; text, inline code and line breaks are written as Markdown;
/// other events are dropped.
pub open spec fn bob_from(evs: Seq<MdEventView>, i: int, in_bob: bool, bob: Seq<char>) -> Seq<char>
    decreases evs.len() - i,
{
    if i < 0 || i >= evs.len() {
        seq![]
    } else {
        match evs[i] {
            MdEventView::CodeStart(info) => if trim(info_text(info)) == seq!['b', 'o', 'b'] {
                bob_from(evs, i + 1, true, seq![])
            } else {
                seq!['`', '`', '`'] + info_text(info) + seq!['\n'] + bob_from(evs, i + 1, false, bob)
            },
            MdEventView::CodeEnd => if in_bob {
                svgbob_svg(bob) + seq!['\n'] + bob_from(evs, i + 1, false, bob)
            } else {
                seq!['`', '`', '`', '\n', '\n'] + bob_from(evs, i + 1, false, bob)
            },
            MdEventView::Text(t) => if in_bob {
                bob_from(evs, i + 1, true, bob + t)
            } else {
                t + bob_from(evs, i + 1, false, bob)
            },
            MdEventView::Code(t) => seq!['`'] + t + seq!['`'] + bob_from(evs, i + 1, in_bob, bob),
            MdEventView::SoftBreak => seq!['\n'] + bob_from(evs, i + 1, in_bob, bob),
            MdEventView::HardBreak => seq![' ', ' ', '\n'] + bob_from(evs, i + 1, in_bob, bob),
            _ => bob_from(evs, i + 1, in_bob, bob),
        }
    }
}

/// A chapter with its `bob` blocks drawn.
pub open spec fn bob_drawn(content: Seq<char>) -> Seq<char> {
    bob_from(markdown_events(content), 0, false, seq![])
}

fn is_bob(info: &str) -> (r: bool)
    ensures
        r == (trim(info@) == seq!['b', 'o', 'b']),
{
    let v = crate::text::to_chars(info);
    let (a, b) = trim_range(&v, 0, v.len());
    assert(v@.subrange(0, v.len() as int) =~= v@);
    let r = b - a == 3 && v[a] == 'b' && v[a + 1] == 'o' && v[a + 2] == 'b';
    proof {
        let t = v@.subrange(a as int, b as int);
        if r {
            assert(t =~= seq!['b', 'o', 'b']);
        } else if t == seq!['b', 'o', 'b'] {
            assert(t[0] == v@[a as int] && t[1] == v@[a + 1] && t[2] == v@[a + 2]);
        }
    }
    r
}

/// Draws the `bob` blocks of a chapter (see `bob_drawn`).
pub fn process_chapter(content: &str) -> (r: String)
    ensures
        r@ == bob_drawn(content@),
{
    let evs = parse_events(content);
    let ghost ev = evs@.map_values(|e: MdEvent| e@);
    let mut out = String::new();
    let mut in_bob = false;
    let mut bob = String::new();
    let mut i: usize = 0;
    while i < evs.len()
        invariant
            i <= evs.len(),
            ev == evs@.map_values(|e: MdEvent| e@),
            ev == markdown_events(content@),
            bob_drawn(content@) == out@ + bob_from(ev, i as int, in_bob, bob@),
        decreases evs.len() - i,
    {
        let ghost out0 = out@;
        assert(ev[i as int] == evs@[i as int]@);
        match &evs[i] {
            MdEvent::CodeStart(info) => {
                let inf = match info {
                    Some(t) => t.clone(),
                    None => String::new(),
                };
                assert(inf@ == info_text(ev[i as int]->CodeStart_0));
                if is_bob(inf.as_str()) {
                    in_bob = true;
                    bob = String::new();
                } else {
                    in_bob = false;
                    out.append("```");
                    out.append(inf.as_str());
                    out.append("\n");
                    proof {
                        reveal_strlit("```");
                        reveal_strlit("\n");
                        assert(out@ =~= out0 + (seq!['`', '`', '`'] + inf@ + seq!['\n']));
                    }
                }
            },
            MdEvent::CodeEnd => {
                if in_bob {
                    in_bob = false;
                    let svg = render_svg(bob.as_str());
                    out.append(svg.as_str());
                    out.append("\n");
                    proof {
                        reveal_strlit("\n");
                        assert(out@ =~= out0 + (svgbob_svg(bob@) + seq!['\n']));
                    }
                } else {
                    out.append("```\n\n");
                    proof {
                        reveal_strlit("```\n\n");
                        assert(out@ =~= out0 + seq!['`', '`', '`', '\n', '\n']);
                    }
                }
            },
            MdEvent::Text(t) => {
                if in_bob {
                    bob.append(t.as_str());
                } else {
                    out.append(t.as_str());
                    assert(out@ =~= out0 + t@);
                }
            },
            MdEvent::Code(t) => {
                out.append("`");
                out.append(t.as_str());
                out.append("`");
                proof {
                    reveal_strlit("`");
                    assert(out@ =~= out0 + (seq!['`'] + t@ + seq!['`']));
                }
            },
            MdEvent::SoftBreak => {
                out.append("\n");
                proof {
                    reveal_strlit("\n");
                    assert(out@ =~= out0 + seq!['\n']);
                }
            },
            MdEvent::HardBreak => {
                out.append("  \n");
                proof {
                    reveal_strlit("  \n");
                    assert(out@ =~= out0 + seq![' ', ' ', '\n']);
                }
            },
            _ => {},
        }
        i = i + 1;
    }
    out
}

/// The preprocessor pass over a book: the content of every chapter
/// processed. Reading the book from mdbook and writing it back is left to
/// the caller.
pub fn run(chapters: &[String]) -> (r: Vec<String>)
    ensures
        r.len() == chapters.len(),
        forall|i: int| 0 <= i < chapters.len() ==> #[trigger] r[i]@ == bob_drawn(chapters[i]@),
{
    let mut r: Vec<String> = Vec::new();
    let mut i: usize = 0;
    while i < chapters.len()
        invariant
            i <= chapters.len(),
            r.len() == i,
            forall|k: int| 0 <= k < i ==> #[trigger] r[k]@ == bob_drawn(chapters[k]@),
        decreases chapters.len() - i,
    {
        r.push(process_chapter(chapters[i].as_str()));
        i = i + 1;
    }
    r
}

} // verus!
