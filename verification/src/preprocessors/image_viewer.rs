//! mdbook-image-viewer: Markdown images `![alt](path)` become clickable
//! `<img>` tags that open a zoomable modal viewer (drag, wheel and pinch
//! zoom), whose style sheet and script surround each chapter.
use vstd::prelude::*;
use crate::pattern::{pieces_view, regex_pieces, regex_split};
use crate::preprocessors::embedify::{group_str, group_text};

verus! {

broadcast use vstd::string::group_string_axioms;

/// The preprocessor.
pub struct ImageViewerPreprocessor;

impl ImageViewerPreprocessor {
    /// The name mdbook knows the preprocessor by.
    pub fn name(&self) -> (r: &'static str)
        ensures
            r@ == "mdbook-image-viewer"@,
    {
        "mdbook-image-viewer"
    }

    /// Only the HTML renderer is supported.
    pub fn supports_renderer(&self, renderer: &str) -> (r: bool)
        ensures
            r == (renderer@ == "html"@),
    {
        crate::text::str_eq(renderer, "html")
    }

    /// The chapter with every Markdown image turned into a viewer image.
    pub fn process_chapter(&self, content: &str) -> (r: String)
        ensures
            r@ == images_replaced(content@),
    {
        replace_images(content)
    }
}

/// A Markdown image `![alt](path)`: alt is group 1 and path group 2, each
/// matched lazily on one line.
pub const IMAGE: &'static str = "!\\[(.*?)\\]\\((.*?)\\)";

/// The viewer image of one Markdown image.
pub open spec fn viewer_img(alt: Seq<char>, path: Seq<char>) -> Seq<char> {
    "<img src=\""@ + path + "\" alt=\""@ + alt
        + "\" class=\"miv_mdbook-image-viewer\" onclick=\"miv_openModal(this.src)\">"@
}

/// A chapter rebuilt from the regex pieces, each image replaced.
pub open spec fn images_rebuilt(pieces: Seq<(Seq<char>, Seq<Option<Seq<char>>>)>, tail: Seq<char>) -> Seq<char>
    decreases pieces.len(),
{
    if pieces.len() == 0 {
        tail
    } else {
        pieces[0].0 + viewer_img(group_text(pieces[0].1, 1), group_text(pieces[0].1, 2)) + images_rebuilt(
            pieces.drop_first(),
            tail,
        )
    }
}

/// A chapter with its images replaced.
pub open spec fn images_replaced(content: Seq<char>) -> Seq<char> {
    let (pieces, tail) = regex_pieces(IMAGE@, content);
    images_rebuilt(pieces, tail)
}

/// The chapter as the preprocessor leaves it: the viewer's style sheet, the
/// processed content and the viewer's script, one per line.
pub open spec fn viewer_chapter(content: Seq<char>, css: Seq<char>, js: Seq<char>) -> Seq<char> {
    css + "\n"@ + images_replaced(content) + "\n"@ + js
}

/// Replaces every `![alt](path)` by a viewer `<img>` tag.
pub fn replace_images(content: &str) -> (r: String)
    ensures
        r@ == images_replaced(content@),
{
    let (pieces, tail) = regex_split(IMAGE, content);
    let ghost pv = pieces_view(pieces@);
    let mut out = String::new();
    let mut i: usize = 0;
    assert(pv.skip(0) =~= pv);
    while i < pieces.len()
        invariant
            i <= pieces.len(),
            pv == pieces_view(pieces@),
            images_rebuilt(pv, tail@) == out@ + images_rebuilt(pv.skip(i as int), tail@),
        decreases pieces.len() - i,
    {
        out.append(pieces[i].0.as_str());
        let alt = group_str(&pieces[i].1, 1);
        let path = group_str(&pieces[i].1, 2);
        out.append("<img src=\"");
        out.append(path.as_str());
        out.append("\" alt=\"");
        out.append(alt.as_str());
        out.append("\" class=\"miv_mdbook-image-viewer\" onclick=\"miv_openModal(this.src)\">");
        assert(pv.skip(i as int).drop_first() =~= pv.skip(i + 1));
        i = i + 1;
    }
    out.append(tail.as_str());
    out
}

/// The preprocessor pass over a book: every chapter's images replaced, with
/// the viewer's style sheet (`css`) before and its script (`js`) after.
/// Reading the book from mdbook, the two templates, and writing the book back
/// are left to the caller.
pub fn run(chapters: &[String], css: &str, js: &str) -> (r: Vec<String>)
    ensures
        r.len() == chapters.len(),
        forall|i: int|
            0 <= i < chapters.len() ==> #[trigger] r[i]@ == viewer_chapter(chapters[i]@, css@, js@),
{
    let mut r: Vec<String> = Vec::new();
    let mut i: usize = 0;
    while i < chapters.len()
        invariant
            i <= chapters.len(),
            r.len() == i,
            forall|k: int|
                0 <= k < i ==> #[trigger] r[k]@ == viewer_chapter(chapters[k]@, css@, js@),
        decreases chapters.len() - i,
    {
        let processed = replace_images(chapters[i].as_str());
        let mut c = String::new();
        c.append(css);
        c.append("\n");
        c.append(processed.as_str());
        c.append("\n");
        c.append(js);
        r.push(c);
        i = i + 1;
    }
    r
}

/// The entry the unified preprocessor calls: the chapter's images replaced,
/// with the viewer's style sheet before and its script after (see
/// `viewer_chapter`).
pub fn process_content(content: &str, css: &str, js: &str) -> (r: String)
    ensures
        r@ == viewer_chapter(content@, css@, js@),
{
    let processed = replace_images(content);
    let mut c = String::new();
    c.append(css);
    c.append("\n");
    c.append(processed.as_str());
    c.append("\n");
    c.append(js);
    c
}

} // verus!
