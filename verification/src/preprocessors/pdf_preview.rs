//! mdbook-pdf-preview: `[text](file.pdf "web-preview")` links become embedded PDF previews.
use vstd::prelude::*;
use crate::pattern::{groups_view, pieces_view, regex_pieces, regex_split};
use crate::preprocessors::embedify::group_text;
use crate::text::{push_range, replace_str, replaced, rfind, rfind_str, to_chars};

verus! {

/// The preprocessor.
pub struct PdfPreviewPreprocessor;

impl PdfPreviewPreprocessor {
    /// The name mdbook knows the preprocessor by.
    pub fn name(&self) -> (r: &'static str)
        ensures
            r@ == "mdbook-pdf-preview"@,
    {
        "mdbook-pdf-preview"
    }

    /// Only the HTML renderer is supported.
    pub fn supports_renderer(&self, renderer: &str) -> (r: bool)
        ensures
            r == (renderer@ == "html"@),
    {
        crate::text::str_eq(renderer, "html")
    }
}

/// A link to a PDF whose title is `web-preview` (in either quotes), not an
/// image: the character before it, its text and the path.
pub const PDF_LINK: &'static str = "(?P<before>^|[^!])\\[(?P<text>[^\\]]*)\\]\\((?P<path>[^)]+\\.pdf)\\s+[\"']web-preview[\"']\\)";

/// The attribute that selects the pdf.js viewer, in that mode.
pub open spec fn mode_attr(pdfjs: bool) -> Seq<char> {
    if pdfjs {
        " data-preview-mode=\"pdfjs\""@
    } else {
        seq![]
    }
}

/// An attribute value with `&` and `"` written as entities.
pub open spec fn attr_escaped(s: Seq<char>) -> Seq<char> {
    replaced(replaced(s, "&"@, "&amp;"@), "\""@, "&quot;"@)
}

/// The last segment of a path (after its last `/`).
pub open spec fn file_name(path: Seq<char>) -> Seq<char> {
    match rfind(path, "/"@) {
        Some(k) => path.skip(k + 1),
        None => path,
    }
}

/// The preview container a link becomes (the character before the link is
/// kept).
pub open spec fn preview_html(g: Seq<Option<Seq<char>>>, pdfjs: bool) -> Seq<char> {
    group_text(g, 1) + "<div class=\"pdfviewer-container\" data-pdf-src=\""@ + attr_escaped(group_text(g, 3))
        + "\""@ + mode_attr(pdfjs)
        + "><div class=\"ppv-placeholder\"><div class=\"ppv-icon\">📄</div><div class=\"ppv-filename\">"@
        + attr_escaped(file_name(group_text(g, 3)))
        + "</div><div class=\"ppv-hint\">点击加载 PDF 预览</div></div></div>"@
}

/// The pieces put back together with each link replaced by its container.
pub open spec fn previews_rebuilt(pieces: Seq<(Seq<char>, Seq<Option<Seq<char>>>)>, tail: Seq<char>, pdfjs: bool) -> Seq<char>
    decreases pieces.len(),
{
    if pieces.len() == 0 {
        tail
    } else {
        pieces.first().0 + preview_html(pieces.first().1, pdfjs) + previews_rebuilt(pieces.drop_first(), tail, pdfjs)
    }
}

/// A chapter with its preview links replaced.
pub open spec fn previews_replaced(content: Seq<char>, pdfjs: bool) -> Seq<char> {
    let (pieces, tail) = regex_pieces(PDF_LINK@, content);
    previews_rebuilt(pieces, tail, pdfjs)
}

/// Appends an attribute value, escaped.
fn push_attr_escaped(out: &mut String, s: &Vec<char>)
    ensures
        final(out)@ == old(out)@ + attr_escaped(s@),
{
    proof {
        reveal_strlit("&");
        reveal_strlit("\"");
    }
    let a = replace_str(s, "&", "&amp;");
    let b = replace_str(&a, "\"", "&quot;");
    crate::text::push_all(out, &b);
}

/// Appends the container of one link.
fn push_preview(out: &mut String, g: &Vec<Option<String>>, pdfjs: bool)
    ensures
        final(out)@ == old(out)@ + preview_html(groups_view(g@), pdfjs),
{
    let before = crate::preprocessors::embedify::group_str(g, 1);
    let path = to_chars(crate::preprocessors::embedify::group_str(g, 3).as_str());
    out.append(before.as_str());
    out.append("<div class=\"pdfviewer-container\" data-pdf-src=\"");
    push_attr_escaped(out, &path);
    out.append("\"");
    if pdfjs {
        out.append(" data-preview-mode=\"pdfjs\"");
    }
    out.append("><div class=\"ppv-placeholder\"><div class=\"ppv-icon\">📄</div><div class=\"ppv-filename\">");
    let mut name: Vec<char> = Vec::new();
    proof {
        reveal_strlit("/");
        crate::text::lemma_rfind_before(path@, "/"@, path@.len() as int + 1);
    }
    match rfind_str(&path, "/") {
        Some(k) => {
            assert(crate::text::match_at(path@, "/"@, k as int));
            assert("/"@.len() == 1);
            let plen = path.len();
            assert(k + 1 <= plen);
            crate::text::extend_range(&mut name, &path, k + 1, plen);
            assert(name@ =~= path@.skip(k + 1));
        },
        None => {
            crate::text::extend_range(&mut name, &path, 0, path.len());
            assert(name@ =~= path@);
        },
    }
    push_attr_escaped(out, &name);
    out.append("</div><div class=\"ppv-hint\">点击加载 PDF 预览</div></div></div>");
}

/// The viewer the configured mode selects: pdf.js when it is `pdfjs`, the
/// browser's own viewer otherwise.
pub fn resolve_mode(configured: Option<&str>) -> (r: &'static str)
    ensures
        r@ == (if configured matches Some(m) && m@ == "pdfjs"@ {
            "pdfjs"@
        } else {
            "embed"@
        }),
{
    match configured {
        Some(m) => if crate::text::str_eq(m, "pdfjs") {
            "pdfjs"
        } else {
            "embed"
        },
        None => "embed",
    }
}

/// Replaces each preview link by its container, for the viewer `mode`.
pub fn process_chapter(content: &str, mode: &str) -> (r: String)
    ensures
        r@ == previews_replaced(content@, mode@ == "pdfjs"@),
{
    let pdfjs = crate::text::str_eq(mode, "pdfjs");
    let (pieces, tail) = regex_split(PDF_LINK, content);
    let ghost pv = pieces_view(pieces@);
    let mut out = String::new();
    let mut i: usize = 0;
    assert(pv.skip(0) =~= pv);
    while i < pieces.len()
        invariant
            i <= pieces.len(),
            pv == pieces_view(pieces@),
            previews_rebuilt(pv, tail@, pdfjs) == out@ + previews_rebuilt(pv.skip(i as int), tail@, pdfjs),
        decreases pieces.len() - i,
    {
        out.append(pieces[i].0.as_str());
        push_preview(&mut out, &pieces[i].1, pdfjs);
        assert(pv.skip(i as int).drop_first() =~= pv.skip(i + 1));
        i = i + 1;
    }
    out.append(tail.as_str());
    out
}

/// A chapter as the preprocessor leaves it: the viewer's styles (the
/// template `css`), a newline, then the chapter with its links replaced;
/// the mode is `embed` unless `pdfjs` is configured.
pub open spec fn previewed(content: Seq<char>, mode: Option<Seq<char>>, css: Seq<char>) -> Seq<char> {
    css + "\n"@ + previews_replaced(content, mode == Some("pdfjs"@))
}

/// Processes a chapter's content with the configured mode (`mode` under
/// the preprocessor's table) and the styles template `css`.
pub fn process_content(content: &str, mode: Option<&str>, css: &str) -> (r: String)
    ensures
        r@ == previewed(
            content@,
            match mode {
                Some(m) => Some(m@),
                None => None,
            },
            css@,
        ),
{
    let m = match mode {
        Some(m) => m,
        None => "embed",
    };
    proof {
        reveal_strlit("embed");
        reveal_strlit("pdfjs");
        assert("embed"@ != "pdfjs"@) by {
            assert("embed"@[0] != "pdfjs"@[0]);
        }
    }
    let processed = process_chapter(content, m);
    let mut r = String::new();
    r.append(css);
    r.append("\n");
    r.append(processed.as_str());
    r
}

/// The preprocessor pass over a book: each chapter's content processed
/// with the mode the configuration gives and the styles template `css`.
/// Reading the book from mdbook and writing it back is left to the caller.
pub fn run(chapters: &[String], configured_mode: Option<&str>, css: &str) -> (r: Vec<String>)
    ensures
        r.len() == chapters.len(),
        forall|i: int| 0 <= i < chapters.len() ==> #[trigger] r[i]@ == css@ + "\n"@ + previews_replaced(
            chapters[i]@,
            configured_mode matches Some(m) && m@ == "pdfjs"@,
        ),
{
    let mode = resolve_mode(configured_mode);
    let mut r: Vec<String> = Vec::new();
    let mut i: usize = 0;
    while i < chapters.len()
        invariant
            i <= chapters.len(),
            r.len() == i,
            mode@ == (if configured_mode matches Some(m) && m@ == "pdfjs"@ {
                "pdfjs"@
            } else {
                "embed"@
            }),
            forall|k: int| 0 <= k < i ==> #[trigger] r[k]@ == css@ + "\n"@ + previews_replaced(
                chapters[k]@,
                configured_mode matches Some(m) && m@ == "pdfjs"@,
            ),
        decreases chapters.len() - i,
    {
        proof {
            reveal_strlit("embed");
            reveal_strlit("pdfjs");
            assert("embed"@ != "pdfjs"@) by {
                assert("embed"@[0] != "pdfjs"@[0]);
            }
        }
        let processed = process_chapter(chapters[i].as_str(), mode);
        let mut c = String::new();
        c.append(css);
        c.append("\n");
        c.append(processed.as_str());
        r.push(c);
        i = i + 1;
    }
    r
}

} // verus!
