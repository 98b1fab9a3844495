//! mdbook-wavedrom-rs: each ```` ```wavedrom ```` block is wrapped in a
//! `<pre class="wavedrom">` that wavedrom.js renders as a timing diagram.
use vstd::prelude::*;
use crate::pattern::{pieces_view, regex_pieces, regex_split};
use crate::preprocessors::embedify::{group_str, group_text};
use crate::text::{push_range, to_chars, trim, trim_range};

verus! {

broadcast use vstd::string::group_string_axioms;

/// The WaveDrom preprocessor.
pub struct WavedromPreprocessor;

impl WavedromPreprocessor {
    /// The name mdbook knows the preprocessor by.
    pub fn name(&self) -> (r: &'static str)
        ensures
            r@ == "mdbook-wavedrom-rs"@,
    {
        "mdbook-wavedrom-rs"
    }

    /// Every renderer is supported except the one named `not-supported`.
    pub fn supports_renderer(&self, renderer: &str) -> (r: bool)
        ensures
            r == (renderer@ != "not-supported"@),
    {
        !crate::text::str_eq(renderer, "not-supported")
    }
}

/// The wrapper of one diagram: its JSON source trimmed.
pub open spec fn wavedrom_pre(json: Seq<char>) -> Seq<char> {
    "<pre class=\"wavedrom\">\n"@ + trim(json) + "\n</pre>\n"@
}

/// A wavedrom block: its JSON is group 1.
pub const WAVEDROM_BLOCK: &'static str = "(?ms)```wavedrom\\s*\\n(.*?)```";

/// The chapter rebuilt from the regex pieces: each gap kept, each block
/// replaced by the wrapper of its JSON.
pub open spec fn wavedrom_rebuilt(pieces: Seq<(Seq<char>, Seq<Option<Seq<char>>>)>, tail: Seq<char>) -> Seq<char>
    decreases pieces.len(),
{
    if pieces.len() == 0 {
        tail
    } else {
        pieces[0].0 + wavedrom_pre(group_text(pieces[0].1, 1)) + wavedrom_rebuilt(pieces.drop_first(), tail)
    }
}

/// A chapter with its wavedrom blocks replaced.
pub open spec fn wavedrom_processed(content: Seq<char>) -> Seq<char> {
    let (pieces, tail) = regex_pieces(WAVEDROM_BLOCK@, content);
    wavedrom_rebuilt(pieces, tail)
}

/// Wraps each ```` ```wavedrom ```` block of a chapter for wavedrom.js.
pub fn process_chapter(content: &str) -> (r: String)
    ensures
        r@ == wavedrom_processed(content@),
{
    let (pieces, tail) = regex_split(WAVEDROM_BLOCK, content);
    let ghost pv = pieces_view(pieces@);
    let mut out = String::new();
    let mut i: usize = 0;
    assert(pv.skip(0) =~= pv);
    while i < pieces.len()
        invariant
            i <= pieces.len(),
            pv == pieces_view(pieces@),
            wavedrom_rebuilt(pv, tail@) == out@ + wavedrom_rebuilt(pv.skip(i as int), tail@),
        decreases pieces.len() - i,
    {
        out.append(pieces[i].0.as_str());
        let body = to_chars(group_str(&pieces[i].1, 1).as_str());
        let (tb, te) = trim_range(&body, 0, body.len());
        assert(body@.subrange(0, body@.len() as int) =~= body@);
        out.append("<pre class=\"wavedrom\">\n");
        push_range(&mut out, &body, tb, te);
        out.append("\n</pre>\n");
        assert(pv.skip(i as int).drop_first() =~= pv.skip(i + 1));
        i = i + 1;
    }
    out.append(tail.as_str());
    out
}

/// The preprocessor pass over a book: the content of every chapter
/// processed. Reading the book from mdbook and writing it back is left to
/// the caller.
pub fn run(chapters: &[String]) -> (r: Vec<String>)
    ensures
        r.len() == chapters.len(),
        forall|i: int| 0 <= i < chapters.len() ==> #[trigger] r[i]@ == wavedrom_processed(chapters[i]@),
{
    let mut r: Vec<String> = Vec::new();
    let mut i: usize = 0;
    while i < chapters.len()
        invariant
            i <= chapters.len(),
            r.len() == i,
            forall|k: int| 0 <= k < i ==> #[trigger] r[k]@ == wavedrom_processed(chapters[k]@),
        decreases chapters.len() - i,
    {
        r.push(process_chapter(chapters[i].as_str()));
        i = i + 1;
    }
    r
}

} // verus!
