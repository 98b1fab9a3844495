//! mdbook-mermaid: each ```` ```mermaid ```` block becomes a
//! `<div class="mermaid">` placeholder rendered by mermaid.js in the browser.
use vstd::prelude::*;
use crate::pattern::{pieces_view, regex_pieces, regex_split};
use crate::preprocessors::embedify::{group_str, group_text};
use crate::text::{to_chars, trim, trim_range};
use crate::utils::{escape_xml_chars, escaped_xml};

verus! {

broadcast use vstd::string::group_string_axioms;

/// The mermaid preprocessor.
pub struct MermaidPreprocessor;

impl MermaidPreprocessor {
    /// The name mdbook knows the preprocessor by.
    pub fn name(&self) -> (r: &'static str)
        ensures
            r@ == "mdbook-mermaid"@,
    {
        "mdbook-mermaid"
    }

    /// Every renderer is supported except the one named `not-supported`.
    pub fn supports_renderer(&self, renderer: &str) -> (r: bool)
        ensures
            r == (renderer@ != "not-supported"@),
    {
        !crate::text::str_eq(renderer, "not-supported")
    }
}

/// `s` with every `'\n'` written as the entity `&#10;`.
pub open spec fn newlines_as_entities(s: Seq<char>) -> Seq<char>
    decreases s.len(),
{
    if s.len() == 0 {
        seq![]
    } else {
        newlines_as_entities(s.drop_last()) + if s.last() == '\n' {
            "&#10;"@
        } else {
            seq![s.last()]
        }
    }
}

/// The placeholder of one diagram: its source trimmed, XML-escaped (so that
/// `A <--> B` is not read as a tag) and kept on one line.
pub open spec fn mermaid_div(diagram: Seq<char>) -> Seq<char> {
    "<div class=\"mermaid-container\" style=\"text-align: center\"><div class=\"mermaid\">"@
        + newlines_as_entities(escaped_xml(trim(diagram))) + "</div></div>"@
}

/// Writing newlines as entities leaves no newline, and brings in no `<` or
/// `>` where there were none.
proof fn lemma_entities_one_line(s: Seq<char>)
    requires
        forall|i: int| 0 <= i < s.len() ==> #[trigger] s[i] != '<' && s[i] != '>',
    ensures
        forall|i: int|
            0 <= i < newlines_as_entities(s).len() ==> #[trigger] newlines_as_entities(s)[i] != '<'
                && newlines_as_entities(s)[i] != '>' && newlines_as_entities(s)[i] != '\n',
    decreases s.len(),
{
    if s.len() > 0 {
        assert forall|i: int| 0 <= i < s.drop_last().len() implies #[trigger] s.drop_last()[i] != '<'
            && s.drop_last()[i] != '>' by {
            assert(s.drop_last()[i] == s[i]);
        }
        lemma_entities_one_line(s.drop_last());
        reveal_strlit("&#10;");
        let a = newlines_as_entities(s.drop_last());
        let b = if s.last() == '\n' {
            "&#10;"@
        } else {
            seq![s.last()]
        };
        assert(newlines_as_entities(s) == a + b);
        assert forall|i: int| 0 <= i < newlines_as_entities(s).len() implies #[trigger] newlines_as_entities(s)[i] != '<'
            && newlines_as_entities(s)[i] != '>' && newlines_as_entities(s)[i] != '\n' by {
            if i < a.len() {
                assert(newlines_as_entities(s)[i] == a[i]);
            } else {
                assert(newlines_as_entities(s)[i] == b[i - a.len()]);
            }
        }
    }
}

/// Whatever its source, a diagram's text in the placeholder is on one line
/// and has no `<` or `>` of its own, so that the Markdown parser reading
/// the chapter afterwards sees no tag in it.
pub proof fn law_diagram_text_is_inert(diagram: Seq<char>)
    ensures
        ({
            let t = newlines_as_entities(escaped_xml(trim(diagram)));
            forall|i: int| 0 <= i < t.len() ==> #[trigger] t[i] != '<' && t[i] != '>' && t[i] != '\n'
        }),
{
    let e = escaped_xml(trim(diagram));
    crate::utils::law_escape_output_is_safe(trim(diagram));
    assert forall|i: int| 0 <= i < e.len() implies #[trigger] e[i] != '<' && e[i] != '>' by {
        assert(crate::utils::safe_char(e[i]));
    }
    lemma_entities_one_line(e);
}

/// The number of newlines in `s`.
pub open spec fn newline_count(s: Seq<char>) -> nat
    decreases s.len(),
{
    if s.len() == 0 {
        0
    } else {
        newline_count(s.drop_last()) + if s.last() == '\n' {
            1nat
        } else {
            0nat
        }
    }
}

proof fn lemma_entities_concat(a: Seq<char>, b: Seq<char>)
    ensures
        newlines_as_entities(a + b) == newlines_as_entities(a) + newlines_as_entities(b),
    decreases b.len(),
{
    if b.len() == 0 {
        assert(a + b =~= a);
        assert(newlines_as_entities(b) =~= Seq::<char>::empty());
        assert(newlines_as_entities(a) + newlines_as_entities(b) =~= newlines_as_entities(a));
    } else {
        lemma_entities_concat(a, b.drop_last());
        assert((a + b).drop_last() =~= a + b.drop_last());
        assert((a + b).last() == b.last());
    }
}

/// Writing newlines as entities loses no line: every newline becomes the
/// five characters `&#10;` and every other character stays, so the text
/// grows by four characters per newline.
pub proof fn law_entities_keep_lines(a: Seq<char>, b: Seq<char>)
    ensures
        newlines_as_entities(a + seq!['\n'] + b) == newlines_as_entities(a) + "&#10;"@ + newlines_as_entities(b),
        newlines_as_entities(a).len() == a.len() + 4 * newline_count(a),
{
    lemma_entities_concat(a + seq!['\n'], b);
    lemma_entities_concat(a, seq!['\n']);
    assert(seq!['\n'].drop_last() =~= Seq::<char>::empty());
    assert(newlines_as_entities(seq!['\n']) == newlines_as_entities(Seq::<char>::empty()) + "&#10;"@);
    assert(newlines_as_entities(Seq::<char>::empty()) + "&#10;"@ =~= "&#10;"@);
    lemma_entities_length(a);
}

proof fn lemma_entities_length(a: Seq<char>)
    ensures
        newlines_as_entities(a).len() == a.len() + 4 * newline_count(a),
    decreases a.len(),
{
    reveal_strlit("&#10;");
    if a.len() > 0 {
        lemma_entities_length(a.drop_last());
    }
}

/// A mermaid block: its body is group 1.
pub const MERMAID_BLOCK: &'static str = "(?ms)```\\s*mermaid\\s*\\n(.*?)```";

/// The chapter rebuilt from the regex pieces: each gap kept, each block
/// replaced by the placeholder of its body.
pub open spec fn mermaid_rebuilt(pieces: Seq<(Seq<char>, Seq<Option<Seq<char>>>)>, tail: Seq<char>) -> Seq<char>
    decreases pieces.len(),
{
    if pieces.len() == 0 {
        tail
    } else {
        pieces[0].0 + mermaid_div(group_text(pieces[0].1, 1)) + mermaid_rebuilt(pieces.drop_first(), tail)
    }
}

/// A chapter with its mermaid blocks replaced.
pub open spec fn mermaid_processed(content: Seq<char>) -> Seq<char> {
    let (pieces, tail) = regex_pieces(MERMAID_BLOCK@, content);
    mermaid_rebuilt(pieces, tail)
}

/// Writes `s` with newlines as entities.
fn push_newlines_as_entities(out: &mut String, s: &Vec<char>)
    ensures
        final(out)@ == old(out)@ + newlines_as_entities(s@),
{
    let mut i: usize = 0;
    while i < s.len()
        invariant
            i <= s.len(),
            out@ == old(out)@ + newlines_as_entities(s@.take(i as int)),
        decreases s.len() - i,
    {
        if s[i] == '\n' {
            out.append("&#10;");
        } else {
            crate::text::push_char(out, s[i]);
        }
        assert(s@.take(i + 1).drop_last() =~= s@.take(i as int));
        i = i + 1;
    }
    assert(s@.take(s.len() as int) =~= s@);
}

/// Replaces each ```` ```mermaid ```` block of a chapter by its placeholder.
pub fn process_chapter(content: &str) -> (r: String)
    ensures
        r@ == mermaid_processed(content@),
{
    let (pieces, tail) = regex_split(MERMAID_BLOCK, content);
    let ghost pv = pieces_view(pieces@);
    let mut out = String::new();
    let mut i: usize = 0;
    assert(pv.skip(0) =~= pv);
    while i < pieces.len()
        invariant
            i <= pieces.len(),
            pv == pieces_view(pieces@),
            mermaid_rebuilt(pv, tail@) == out@ + mermaid_rebuilt(pv.skip(i as int), tail@),
        decreases pieces.len() - i,
    {
        out.append(pieces[i].0.as_str());
        let body = to_chars(group_str(&pieces[i].1, 1).as_str());
        let (tb, te) = trim_range(&body, 0, body.len());
        assert(body@.subrange(0, body@.len() as int) =~= body@);
        let mut trimmed: Vec<char> = Vec::new();
        crate::text::extend_range(&mut trimmed, &body, tb, te);
        let escaped = escape_xml_chars(&trimmed);
        let esc = to_chars(escaped.as_str());
        out.append("<div class=\"mermaid-container\" style=\"text-align: center\"><div class=\"mermaid\">");
        push_newlines_as_entities(&mut out, &esc);
        out.append("</div></div>");
        assert(pv.skip(i as int).drop_first() =~= pv.skip(i + 1));
        i = i + 1;
    }
    out.append(tail.as_str());
    out
}

/// The preprocessor pass over a book: the content of every chapter
/// processed. Reading the book from mdbook and writing it back is left to
/// the caller.
pub fn run(chapters: &[String]) -> (r: Vec<String>)
    ensures
        r.len() == chapters.len(),
        forall|i: int| 0 <= i < chapters.len() ==> #[trigger] r[i]@ == mermaid_processed(chapters[i]@),
{
    let mut r: Vec<String> = Vec::new();
    let mut i: usize = 0;
    while i < chapters.len()
        invariant
            i <= chapters.len(),
            r.len() == i,
            forall|k: int| 0 <= k < i ==> #[trigger] r[k]@ == mermaid_processed(chapters[k]@),
        decreases chapters.len() - i,
    {
        r.push(process_chapter(chapters[i].as_str()));
        i = i + 1;
    }
    r
}

/// The entry the unified preprocessor calls: the chapter processed (see
/// `mermaid_processed`).
pub fn process_content(content: &str) -> (r: String)
    ensures
        r@ == mermaid_processed(content@),
{
    process_chapter(content)
}

} // verus!
