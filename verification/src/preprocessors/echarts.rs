//! mdbook-echarts: chart and diagram blocks (ECharts, Svgbob, Bytefield, LaTeX/TikZ, Pikchr, Typst, WaveDrom).
use vstd::prelude::*;
use crate::ids::{fresh_uuid_hex, lower_hex_digit};
use crate::pattern::{groups_view, pieces_view, regex_pieces, regex_replace_all, regex_replaced_all, regex_split};
use crate::build_search::{insert_sorted, strictly_sorted};
use crate::preprocessors::embedify::group_text;
use crate::text::{sviews, drop_blank_lines, drop_blank_lines_exec, join, lines, push_range, replace_str, replaced, to_chars, trim, trim_range};
use crate::utils::{escape_xml, escaped_xml};
use crate::hashing::{lower_hex, sha256_of};

verus! {

/// The preprocessor.
pub struct ChartPreprocessor;

impl ChartPreprocessor {
    /// The name mdbook knows the preprocessor by.
    pub fn name(&self) -> (r: &'static str)
        ensures
            r@ == "mdbook-echarts"@,
    {
        "mdbook-echarts"
    }

    /// Only the HTML renderer is supported.
    pub fn supports_renderer(&self, renderer: &str) -> (r: bool)
        ensures
            r == (renderer@ == "html"@),
    {
        crate::text::str_eq(renderer, "html")
    }
}

// ───────────────────────── code blocks ─────────────────────────

/// A block's content: the text with its opening tag and every triple
/// backtick removed, trimmed.
pub open spec fn cleaned_block(mat: Seq<char>, start_tag: Seq<char>) -> Seq<char> {
    trim(replaced(replaced(mat, start_tag, ""@), "```"@, ""@))
}

/// Extracts a block's content (see `cleaned_block`); the tag is not empty.
pub fn clean_codeblock(mat_str: &str, start_tag: &str) -> (r: String)
    requires
        start_tag@.len() > 0,
    ensures
        r@ == cleaned_block(mat_str@, start_tag@),
{
    proof {
        reveal_strlit("```");
    }
    let m = to_chars(mat_str);
    let a = replace_str(&m, start_tag, "");
    let b = replace_str(&a, "```", "");
    let (x, y) = trim_range(&b, 0, b.len());
    assert(b@.subrange(0, b@.len() as int) =~= b@);
    let mut r = String::new();
    push_range(&mut r, &b, x, y);
    r
}

/// Two or more newlines in a row.
pub const NEWLINE_RUN: &'static str = "\\n{2,}";

/// A text with each run of newlines reduced to one.
pub open spec fn newline_runs_collapsed(s: Seq<char>) -> Seq<char> {
    regex_replaced_all(NEWLINE_RUN@, s, "\n"@)
}

// ───────────────────────── ECharts ─────────────────────────

/// The ECharts block with element id `id`: the script without blank lines,
/// its `chartDom`, `myChart` and `main` names made unique with the id, and
/// `--k` written `(k-=1,k)`.
pub open spec fn echarts_html(mat: Seq<char>, id: Seq<char>) -> Seq<char> {
    let c0 = drop_blank_lines(cleaned_block(mat, "```echarts"@));
    let c1 = replaced(c0, "chartDom"@, "chartDom_"@ + id);
    let c2 = replaced(c1, "myChart"@, "chart_"@ + id);
    let c3 = replaced(c2, "document.getElementById('main')"@, "document.getElementById('"@ + id + "')"@);
    let c4 = replaced(c3, "document.getElementById(\"main\")"@, "document.getElementById(\""@ + id + "\")"@);
    let c5 = replaced(c4, "--k"@, "(k-=1,k)"@);
    "<div>\n    <div id=\""@ + id
        + "\" style=\"height: 500px; text-align: center;\">\n<script type=\"text/javascript\">\n        document.addEventListener('DOMContentLoaded', function() {\n            "@
        + c5 + "\n        });\n</script>\n    </div>\n</div>"@
}

/// Builds the ECharts block with element id `id` (see `echarts_html`).
pub fn echarts_html_with(mat_str: &str, id: &str) -> (r: String)
    ensures
        r@ == echarts_html(mat_str@, id@),
{
    proof {
        reveal_strlit("```echarts");
        reveal_strlit("chartDom");
        reveal_strlit("myChart");
        reveal_strlit("document.getElementById('main')");
        reveal_strlit("document.getElementById(\"main\")");
        reveal_strlit("--k");
    }
    let c = clean_codeblock(mat_str, "```echarts");
    let cc = to_chars(c.as_str());
    let c0 = drop_blank_lines_exec(&cc);
    let mut r1 = String::new();
    r1.append("chartDom_");
    r1.append(id);
    let c1 = replace_str(&c0, "chartDom", r1.as_str());
    let mut r2 = String::new();
    r2.append("chart_");
    r2.append(id);
    let c2 = replace_str(&c1, "myChart", r2.as_str());
    let mut r3 = String::new();
    r3.append("document.getElementById('");
    r3.append(id);
    r3.append("')");
    let c3 = replace_str(&c2, "document.getElementById('main')", r3.as_str());
    let mut r4 = String::new();
    r4.append("document.getElementById(\"");
    r4.append(id);
    r4.append("\")");
    let c4 = replace_str(&c3, "document.getElementById(\"main\")", r4.as_str());
    let c5 = replace_str(&c4, "--k", "(k-=1,k)");
    let mut r = String::new();
    r.append("<div>\n    <div id=\"");
    r.append(id);
    r.append("\" style=\"height: 500px; text-align: center;\">\n<script type=\"text/javascript\">\n        document.addEventListener('DOMContentLoaded', function() {\n            ");
    crate::text::push_all(&mut r, &c5);
    r.append("\n        });\n</script>\n    </div>\n</div>");
    r
}

/// Builds an ECharts block under a fresh random id: the result is
/// `echarts_html` for some 32-digit hexadecimal id.
pub fn echarts_gen_html(mat_str: &str) -> (r: String)
    ensures
        exists|id: Seq<char>|
            id.len() == 32 && (forall|i: int| 0 <= i < 32 ==> lower_hex_digit(#[trigger] id[i]))
                && r@ == echarts_html(mat_str@, id),
{
    let id = fresh_uuid_hex();
    let r = echarts_html_with(mat_str, id.as_str());
    assert(id@.len() == 32 && (forall|i: int| 0 <= i < 32 ==> lower_hex_digit(#[trigger] id@[i]))
        && r@ == echarts_html(mat_str@, id@));
    r
}

// ───────────────────────── Svgbob blocks ─────────────────────────

/// What svgbob draws for a piece of ASCII art, written out as compressed
/// SVG text (`CellBuffer::get_node_with_size` with the default settings,
/// then `render_with_indent(.., 0, true)`); none when writing it fails.
pub uninterp spec fn svgbob_node_text(ascii: Seq<char>) -> Option<Seq<char>>;

/// Draws ASCII art with svgbob (see `svgbob_node_text`).
#[verifier::external_body]
fn svgbob_render(ascii: &str) -> (r: Option<String>)
    ensures
        match r {
            Some(x) => svgbob_node_text(ascii@) == Some(x@),
            None => svgbob_node_text(ascii@) is None,
        },
{
    let cb = svgbob::CellBuffer::from(ascii);
    let (node, _, _) = cb.get_node_with_size::<()>(&svgbob::Settings::default());
    let mut out = String::new();
    node.render_with_indent(&mut out, 0, true).ok()?;
    Some(out)
}

/// The Svgbob block with id `id`: nothing for an empty block; the drawing
/// with its `svgbob` class names made unique with the id; the source as
/// code when the drawing could not be written.
pub open spec fn svgbob_html(mat: Seq<char>, id: Seq<char>) -> Seq<char> {
    let c = cleaned_block(mat, "```bob"@);
    if c.len() == 0 {
        seq![]
    } else {
        match svgbob_node_text(c) {
            Some(svg) => "<pre class=\"diagram-svgbob\" style=\"text-align: center;\">\n"@ + replaced(
                svg,
                "svgbob"@,
                "svgbob_"@ + id,
            ) + "\n</pre>"@,
            None => "<pre><code class=\"language-bob\">"@ + c + "</code></pre>"@,
        }
    }
}

/// Builds the Svgbob block with id `id` (see `svgbob_html`).
pub fn svgbob_html_with(mat_str: &str, id: &str) -> (r: String)
    ensures
        r@ == svgbob_html(mat_str@, id@),
{
    proof {
        reveal_strlit("```bob");
        reveal_strlit("svgbob");
    }
    let c = clean_codeblock(mat_str, "```bob");
    let cv = to_chars(c.as_str());
    if cv.len() == 0 {
        return String::new();
    }
    match svgbob_render(c.as_str()) {
        Some(svg) => {
            let mut rep = String::new();
            rep.append("svgbob_");
            rep.append(id);
            let sv = to_chars(svg.as_str());
            let t = replace_str(&sv, "svgbob", rep.as_str());
            let mut r = String::new();
            r.append("<pre class=\"diagram-svgbob\" style=\"text-align: center;\">\n");
            crate::text::push_all(&mut r, &t);
            r.append("\n</pre>");
            r
        },
        None => {
            let mut r = String::new();
            r.append("<pre><code class=\"language-bob\">");
            r.append(c.as_str());
            r.append("</code></pre>");
            r
        },
    }
}

/// Builds a Svgbob block under a fresh random id: the result is
/// `svgbob_html` for some 32-digit hexadecimal id.
pub fn svgbob_gen_html(mat_str: &str) -> (r: String)
    ensures
        exists|id: Seq<char>|
            id.len() == 32 && (forall|i: int| 0 <= i < 32 ==> lower_hex_digit(#[trigger] id[i]))
                && r@ == svgbob_html(mat_str@, id),
{
    let id = fresh_uuid_hex();
    let r = svgbob_html_with(mat_str, id.as_str());
    assert(id@.len() == 32 && (forall|i: int| 0 <= i < 32 ==> lower_hex_digit(#[trigger] id@[i]))
        && r@ == svgbob_html(mat_str@, id@));
    r
}

// ───────────────────────── text-only blocks ─────────────────────────

/// The bytefield block: the source with newline runs reduced, escaped.
pub open spec fn bytefield_html(mat: Seq<char>) -> Seq<char> {
    "<div>\n    <div id=\"CommonMark-bytefield\" style=\"text-align: center;\">\n    <pre tabindex=\"0\"><code class=\"language-bytefield\" data-lang=\"bytefield\">\n"@
        + escaped_xml(newline_runs_collapsed(cleaned_block(mat, "```bytefield"@)))
        + "\n    </code></pre>\n    </div>\n</div>"@
}

/// Builds a bytefield block (see `bytefield_html`).
pub fn bytefield_gen_html(mat_str: &str) -> (r: String)
    ensures
        r@ == bytefield_html(mat_str@),
{
    proof {
        reveal_strlit("```bytefield");
    }
    let c = clean_codeblock(mat_str, "```bytefield");
    let d = regex_replace_all(NEWLINE_RUN, c.as_str(), "\n");
    let e = escape_xml(d.as_str());
    let mut r = String::new();
    r.append("<div>\n    <div id=\"CommonMark-bytefield\" style=\"text-align: center;\">\n    <pre tabindex=\"0\"><code class=\"language-bytefield\" data-lang=\"bytefield\">\n");
    r.append(e.as_str());
    r.append("\n    </code></pre>\n    </div>\n</div>");
    r
}

/// The LaTeX document block handed to latex.js in the browser.
pub open spec fn latex_html(mat: Seq<char>) -> Seq<char> {
    "<div>\n    <div id=\"CommonMark-latex\"></div>\n    <latex-js baseURL=\"https://cdn.jsdelivr.net/npm/latex.js/dist/\"><code>\n"@
        + escaped_xml(newline_runs_collapsed(cleaned_block(mat, "```latex tex"@)))
        + "\n    </code></latex-js>\n</div>"@
}

/// Builds a LaTeX document block for latex.js (see `latex_html`).
pub fn latex_gen_html(mat_str: &str) -> (r: String)
    ensures
        r@ == latex_html(mat_str@),
{
    proof {
        reveal_strlit("```latex tex");
    }
    let c = clean_codeblock(mat_str, "```latex tex");
    let d = regex_replace_all(NEWLINE_RUN, c.as_str(), "\n");
    let e = escape_xml(d.as_str());
    let mut r = String::new();
    r.append("<div>\n    <div id=\"CommonMark-latex\"></div>\n    <latex-js baseURL=\"https://cdn.jsdelivr.net/npm/latex.js/dist/\"><code>\n");
    r.append(e.as_str());
    r.append("\n    </code></latex-js>\n</div>");
    r
}

/// A pikchr block shown as code (the pikchr preprocessor renders them).
pub open spec fn pikchr_code_html(mat: Seq<char>) -> Seq<char> {
    "<pre><code class=\"language-pikchr\">\n"@ + cleaned_block(mat, "```pikchr"@) + "\n</code></pre>"@
}

/// Shows a pikchr block as code (see `pikchr_code_html`).
pub fn pikchr_gen_html(mat_str: &str) -> (r: String)
    ensures
        r@ == pikchr_code_html(mat_str@),
{
    proof {
        reveal_strlit("```pikchr");
    }
    let c = clean_codeblock(mat_str, "```pikchr");
    let mut r = String::new();
    r.append("<pre><code class=\"language-pikchr\">\n");
    r.append(c.as_str());
    r.append("\n</code></pre>");
    r
}

/// A WaveDrom block, left to WaveDrom's script in the browser.
pub open spec fn wavedrom_script_html(mat: Seq<char>) -> Seq<char> {
    "<div class=\"diagram-wavedrom\" style=\"text-align:center;\">\n<script type=\"WaveDrom\">\n"@
        + cleaned_block(mat, "```wavedrom"@) + "\n</script>\n</div>"@
}

/// Builds a WaveDrom block (see `wavedrom_script_html`).
pub fn wavedrom_gen_html(mat_str: &str) -> (r: String)
    ensures
        r@ == wavedrom_script_html(mat_str@),
{
    proof {
        reveal_strlit("```wavedrom");
    }
    let c = clean_codeblock(mat_str, "```wavedrom");
    let mut r = String::new();
    r.append("<div class=\"diagram-wavedrom\" style=\"text-align:center;\">\n<script type=\"WaveDrom\">\n");
    r.append(c.as_str());
    r.append("\n</script>\n</div>");
    r
}

// ───────────────────────── Typst sources ─────────────────────────

/// A renderer directive that may stand alone on a Typst block's first line.
pub open spec fn typst_directive(t: Seq<char>) -> bool {
    t == "svg"@ || t == "pdf"@ || t == "png"@ || t == "raw"@ || t == "plain"@
}

/// A Typst source without a leading directive line: when the first line
/// (trimmed) is a directive, the other lines joined by `'\n'`; otherwise
/// the source as it is.
pub open spec fn typst_fence_cleaned(content: Seq<char>) -> Seq<char> {
    let ls = lines(content);
    if ls.len() == 0 {
        seq![]
    } else if typst_directive(trim(ls[0])) {
        join(ls.skip(1), "\n"@)
    } else {
        content
    }
}

/// The lines of `s` from position `p` on, joined by `'\n'`.
fn join_lines_from(s: &Vec<char>, p: usize) -> (r: Vec<char>)
    requires
        p <= s.len(),
    ensures
        r@ == join(crate::text::lines_from(s@, p as int), "\n"@),
{
    proof {
        reveal_strlit("\n");
    }
    let mut out: Vec<char> = Vec::new();
    let mut q = p;
    let ghost mut acc: Seq<Seq<char>> = seq![];
    let mut started = false;
    while q < s.len()
        invariant
            p <= q <= s.len(),
            started == (acc.len() > 0),
            crate::text::lines_from(s@, p as int) == acc + crate::text::lines_from(s@, q as int),
            out@ == join(acc, "\n"@),
            "\n"@ == seq!['\n'],
        decreases s.len() - q,
    {
        let (ce, le) = crate::text::next_line(s, q);
        proof {
            crate::text::lemma_line_end(s@, q as int);
            crate::text::lemma_join_push(acc, s@.subrange(q as int, ce as int), "\n"@);
            assert(acc + crate::text::lines_from(s@, q as int) =~= acc.push(s@.subrange(q as int, ce as int))
                + crate::text::lines_from(s@, le + 1));
        }
        let ghost before = out@;
        if started {
            out.push('\n');
        }
        started = true;
        crate::text::extend_range(&mut out, s, q, ce);
        proof {
            if acc.len() > 0 {
                assert(out@ =~= before + "\n"@ + s@.subrange(q as int, ce as int));
            } else {
                assert(out@ =~= s@.subrange(q as int, ce as int));
            }
            acc = acc.push(s@.subrange(q as int, ce as int));
        }
        if le < s.len() {
            q = le + 1;
        } else {
            assert(crate::text::lines_from(s@, le + 1) =~= Seq::<Seq<char>>::empty());
            assert(crate::text::lines_from(s@, s@.len() as int) =~= Seq::<Seq<char>>::empty());
            q = s.len();
        }
    }
    assert(acc + crate::text::lines_from(s@, q as int) =~= acc);
    out
}

/// Removes a leading directive line from a Typst source (see
/// `typst_fence_cleaned`).
pub fn clean_typst_fence(content: &str) -> (r: String)
    ensures
        r@ == typst_fence_cleaned(content@),
{
    let s = to_chars(content);
    if s.len() == 0 {
        return String::new();
    }
    let (ce, le) = crate::text::next_line(&s, 0);
    let (a, b) = trim_range(&s, 0, ce);
    let mut first = String::new();
    push_range(&mut first, &s, a, b);
    let f = first.as_str();
    proof {
        crate::text::lemma_line_end(s@, 0);
    }
    if crate::text::str_eq(f, "svg") || crate::text::str_eq(f, "pdf") || crate::text::str_eq(f, "png")
        || crate::text::str_eq(f, "raw") || crate::text::str_eq(f, "plain") {
        let rest = if le < s.len() {
            join_lines_from(&s, le + 1)
        } else {
            Vec::new()
        };
        proof {
            if le >= s.len() {
                assert(crate::text::lines_from(s@, le + 1) =~= Seq::<Seq<char>>::empty());
            }
            assert(lines(s@).skip(1) =~= crate::text::lines_from(s@, le + 1));
        }
        crate::text::from_chars(&rest)
    } else {
        crate::text::from_chars(&s)
    }
}

// ───────────────────────── compiled diagrams ─────────────────────────

/// The view of an optional string slice.
pub open spec fn opt_str_view(o: Option<&str>) -> Option<Seq<char>> {
    match o {
        Some(x) => Some(x@),
        None => None,
    }
}

/// The source of a TikZ block as it is compiled: its content without blank
/// lines.
pub open spec fn tikz_source(mat: Seq<char>) -> Seq<char> {
    drop_blank_lines(cleaned_block(mat, "```latex tikz"@))
}

/// The source of a LaTeX document block as it is compiled.
pub open spec fn latex_source(mat: Seq<char>) -> Seq<char> {
    drop_blank_lines(cleaned_block(mat, "```latex tex"@))
}

/// The source of a Typst block as it is compiled: its content without a
/// directive line and without blank lines.
pub open spec fn typst_source(mat: Seq<char>) -> Seq<char> {
    drop_blank_lines(typst_fence_cleaned(cleaned_block(mat, "```typst"@)))
}

fn without_blank_lines(s: &str) -> (r: String)
    ensures
        r@ == drop_blank_lines(s@),
{
    let v = to_chars(s);
    let d = drop_blank_lines_exec(&v);
    crate::text::from_chars(&d)
}

/// The TikZ source of a block (see `tikz_source`).
pub fn tikz_diagram_source(mat_str: &str) -> (r: String)
    ensures
        r@ == tikz_source(mat_str@),
{
    proof {
        reveal_strlit("```latex tikz");
    }
    let c = clean_codeblock(mat_str, "```latex tikz");
    without_blank_lines(c.as_str())
}

/// The LaTeX source of a document block (see `latex_source`).
pub fn latex_document_source(mat_str: &str) -> (r: String)
    ensures
        r@ == latex_source(mat_str@),
{
    proof {
        reveal_strlit("```latex tex");
    }
    let c = clean_codeblock(mat_str, "```latex tex");
    without_blank_lines(c.as_str())
}

/// The Typst source of a block (see `typst_source`).
pub fn typst_diagram_source(mat_str: &str) -> (r: String)
    ensures
        r@ == typst_source(mat_str@),
{
    proof {
        reveal_strlit("```typst");
    }
    let c = clean_codeblock(mat_str, "```typst");
    let t = clean_typst_fence(c.as_str());
    without_blank_lines(t.as_str())
}

/// The container of a compiled diagram's `<img>`: the hash of its source
/// (for the PDF pass), centred, as wide as the page on screen and of its
/// own size in print.
pub open spec fn img_container(hash: Seq<char>, img: Seq<char>) -> Seq<char> {
    "<div data-pdf-hash=\""@ + hash
        + "\" align=\"center\" class=\"diagram-inline\">\n<style>.diagram-inline img{width:100%;height:auto;max-width:100%}@media print{.diagram-inline img{width:auto;max-width:100%}}</style>\n"@
        + img + "\n</div>"@
}

/// What stands for a block that could not be compiled: a note, and its
/// source with runs of newlines collapsed, in a `<details>` element.
pub open spec fn source_fallback(summary: Seq<char>, note: Seq<char>, source: Seq<char>) -> Seq<char> {
    "<div><details><summary>"@ + summary + "</summary>\n<pre><code>"@ + note + "</code></pre>\n<pre><code>"@
        + newline_runs_collapsed(source) + "</code></pre></details></div>"@
}

fn img_container_exec(hash: &str, img: &str) -> (r: String)
    ensures
        r@ == img_container(hash@, img@),
{
    let mut r = String::new();
    r.append("<div data-pdf-hash=\"");
    r.append(hash);
    r.append("\" align=\"center\" class=\"diagram-inline\">\n<style>.diagram-inline img{width:100%;height:auto;max-width:100%}@media print{.diagram-inline img{width:auto;max-width:100%}}</style>\n");
    r.append(img);
    r.append("\n</div>");
    r
}

fn source_fallback_exec(summary: &str, note: &str, source: &str) -> (r: String)
    ensures
        r@ == source_fallback(summary@, note@, source@),
{
    let d = regex_replace_all(NEWLINE_RUN, source, "\n");
    let mut r = String::new();
    r.append("<div><details><summary>");
    r.append(summary);
    r.append("</summary>\n<pre><code>");
    r.append(note);
    r.append("</code></pre>\n<pre><code>");
    r.append(d.as_str());
    r.append("</code></pre></details></div>");
    r
}

/// A TikZ block: the container of its compiled `<img>` when there is one,
/// otherwise its source shown as code.
pub open spec fn tikz_block_html(mat: Seq<char>, img: Option<Seq<char>>) -> Seq<char> {
    let source = tikz_source(mat);
    match img {
        Some(i) => img_container(lower_hex(sha256_of(source)), i),
        None => source_fallback("TikZ 渲染失败 (点击展开源码)"@, "tikz 渲染引擎未编译"@, source),
    }
}

/// Builds a TikZ block from the `<img>` of its compiled SVG, or from none
/// when it could not be compiled (see `tikz_block_html`).
pub fn tikz_gen_file(mat_str: &str, img_tag: Option<&str>) -> (r: String)
    ensures
        r@ == tikz_block_html(mat_str@, opt_str_view(img_tag)),
{
    let source = tikz_diagram_source(mat_str);
    match img_tag {
        Some(img) => {
            let hash = crate::tikz::tikz_content_hash(source.as_str());
            img_container_exec(hash.as_str(), img)
        },
        None => source_fallback_exec("TikZ 渲染失败 (点击展开源码)", "tikz 渲染引擎未编译", source.as_str()),
    }
}

/// A LaTeX document block: the container of its compiled `<img>` when
/// there is one, otherwise the block handed to latex.js.
pub open spec fn latex_block_html(mat: Seq<char>, img: Option<Seq<char>>) -> Seq<char> {
    match img {
        Some(i) => img_container(lower_hex(sha256_of(latex_source(mat))), i),
        None => latex_html(mat),
    }
}

/// Builds a LaTeX document block (see `latex_block_html`).
pub fn latex_gen_file(mat_str: &str, img_tag: Option<&str>) -> (r: String)
    ensures
        r@ == latex_block_html(mat_str@, opt_str_view(img_tag)),
{
    match img_tag {
        Some(img) => {
            let source = latex_document_source(mat_str);
            let hash = crate::tikz::tikz_content_hash(source.as_str());
            img_container_exec(hash.as_str(), img)
        },
        None => latex_gen_html(mat_str),
    }
}

/// A Typst block: its compiled SVG inlined in a container that opens it
/// enlarged on a click, or, when it could not be compiled, its source
/// shown as code.
pub open spec fn typst_block_html(mat: Seq<char>, svg: Option<Seq<char>>) -> Seq<char> {
    let source = typst_source(mat);
    match svg {
        Some(v) => "<div data-pdf-hash=\""@ + lower_hex(sha256_of(source))
            + "\" align=\"center\" class=\"diagram-inline\"\nstyle=\"cursor:zoom-in;\" onclick=\"if(window.miv_openSvgModal){var s=this.querySelector('svg');if(s)miv_openSvgModal(s);}\">\n"@
            + v + "\n</div>"@,
        None => source_fallback("Typst 渲染失败 (点击展开源码)"@, "typst 渲染引擎未编译"@, source),
    }
}

/// Builds a Typst block from its compiled SVG, or from none when it could
/// not be compiled (see `typst_block_html`).
pub fn typst_gen_file(mat_str: &str, svg: Option<&str>) -> (r: String)
    ensures
        r@ == typst_block_html(mat_str@, opt_str_view(svg)),
{
    let source = typst_diagram_source(mat_str);
    match svg {
        Some(v) => {
            let hash = crate::typst::typst_content_hash(source.as_str());
            let mut r = String::new();
            r.append("<div data-pdf-hash=\"");
            r.append(hash.as_str());
            r.append("\" align=\"center\" class=\"diagram-inline\"\nstyle=\"cursor:zoom-in;\" onclick=\"if(window.miv_openSvgModal){var s=this.querySelector('svg');if(s)miv_openSvgModal(s);}\">\n");
            r.append(v);
            r.append("\n</div>");
            r
        },
        None => source_fallback_exec("Typst 渲染失败 (点击展开源码)", "typst 渲染引擎未编译", source.as_str()),
    }
}

// ───────────────────────── the chapter passes ─────────────────────────
//
// A chapter goes through one pass per kind of block, in this order:
// ECharts, Svgbob, Bytefield, LaTeX document, TikZ, Pikchr, Typst,
// WaveDrom. A pass finds the blocks of its kind in the text as it stands,
// builds what replaces each, then replaces them in turn, every occurrence
// of each block's text at once (`str::replace`).

pub const ECHARTS_BLOCK: &'static str = "```echarts((.*\\n)+?)?```";
pub const BOB_BLOCK: &'static str = "```bob((.*\\n)+?)?```";
pub const BYTEFIELD_BLOCK: &'static str = "```bytefield((.*\\n)+?)?```";
pub const LATEX_TEX_BLOCK: &'static str = "```latex tex((.*\\n)+?)?```";
pub const LATEX_TIKZ_BLOCK: &'static str = "```latex tikz((.*\\n)+?)?```";
pub const PIKCHR_BLOCK: &'static str = "```pikchr((.*\\n)+?)?```";
pub const TYPST_BLOCK: &'static str = "```typst((.*\\n)+?)?```";
pub const WAVEDROM_BLOCK: &'static str = "```wavedrom((.*\\n)+?)?```";

/// The texts of the blocks `pattern` finds in `s`, in order.
pub open spec fn block_matches_of(pattern: Seq<char>, s: Seq<char>) -> Seq<Seq<char>> {
    regex_pieces(pattern, s).0.map_values(|p: (Seq<char>, Seq<Option<Seq<char>>>)| group_text(p.1, 0))
}

/// The texts of the blocks `pattern` finds in `s` (see `block_matches_of`).
pub fn block_matches(pattern: &str, s: &str) -> (r: Vec<String>)
    ensures
        sviews(r@) == block_matches_of(pattern@, s@),
{
    let (pieces, _tail) = regex_split(pattern, s);
    let ghost pv = pieces_view(pieces@);
    let ghost ms = pv.map_values(|p: (Seq<char>, Seq<Option<Seq<char>>>)| group_text(p.1, 0));
    let mut r: Vec<String> = Vec::new();
    let mut i: usize = 0;
    while i < pieces.len()
        invariant
            i <= pieces.len(),
            pv == pieces_view(pieces@),
            ms == pv.map_values(|p: (Seq<char>, Seq<Option<Seq<char>>>)| group_text(p.1, 0)),
            sviews(r@) =~= ms.take(i as int),
        decreases pieces.len() - i,
    {
        let mut m = String::new();
        if pieces[i].1.len() > 0 {
            match &pieces[i].1[0] {
                Some(t) => m.append(t.as_str()),
                None => {},
            }
        }
        assert(m@ == ms[i as int]);
        let ghost before = sviews(r@);
        r.push(m);
        assert(ms.take(i + 1) =~= ms.take(i as int).push(ms[i as int]));
        assert(sviews(r@) =~= before.push(ms[i as int]));
        i = i + 1;
    }
    assert(ms.take(i as int) =~= ms);
    r
}

/// From the `k`-th block on, each block's text replaced everywhere by what
/// replaces it (an empty text, or one without a replacement, is left).
pub open spec fn each_replaced(s: Seq<char>, ms: Seq<Seq<char>>, reps: Seq<Seq<char>>, k: int) -> Seq<char>
    decreases ms.len() - k,
{
    if k < 0 || k >= ms.len() {
        s
    } else {
        let next = if ms[k].len() > 0 && k < reps.len() {
            replaced(s, ms[k], reps[k])
        } else {
            s
        };
        each_replaced(next, ms, reps, k + 1)
    }
}

/// Replaces the blocks found in `s` by what replaces them (see
/// `each_replaced`).
pub fn replace_each(s: &str, ms: &Vec<String>, reps: &Vec<String>) -> (r: String)
    ensures
        r@ == each_replaced(s@, sviews(ms@), sviews(reps@), 0),
{
    let mut cur = to_chars(s);
    let mut k: usize = 0;
    while k < ms.len()
        invariant
            k <= ms.len(),
            each_replaced(s@, sviews(ms@), sviews(reps@), 0) == each_replaced(cur@, sviews(ms@), sviews(reps@), k as int),
        decreases ms.len() - k,
    {
        assert(sviews(ms@)[k as int] == ms@[k as int]@);
        if k < reps.len() {
            assert(sviews(reps@)[k as int] == reps@[k as int]@);
        }
        let mv = to_chars(ms[k].as_str());
        if mv.len() > 0 && k < reps.len() {
            cur = replace_str(&cur, ms[k].as_str(), reps[k].as_str());
        }
        k = k + 1;
    }
    crate::text::from_chars(&cur)
}

/// The passes whose blocks are built from their source alone.
pub enum PlainKind {
    Bytefield,
    Pikchr,
    Wavedrom,
}

/// The pattern of a plain pass.
pub open spec fn plain_pattern(kind: PlainKind) -> Seq<char> {
    match kind {
        PlainKind::Bytefield => BYTEFIELD_BLOCK@,
        PlainKind::Pikchr => PIKCHR_BLOCK@,
        PlainKind::Wavedrom => WAVEDROM_BLOCK@,
    }
}

/// What replaces a block of a plain pass.
pub open spec fn plain_html(kind: PlainKind, mat: Seq<char>) -> Seq<char> {
    match kind {
        PlainKind::Bytefield => bytefield_html(mat),
        PlainKind::Pikchr => pikchr_code_html(mat),
        PlainKind::Wavedrom => wavedrom_script_html(mat),
    }
}

/// A plain pass over a chapter.
pub open spec fn plain_pass_result(kind: PlainKind, s: Seq<char>) -> Seq<char> {
    let ms = block_matches_of(plain_pattern(kind), s);
    each_replaced(s, ms, ms.map_values(|m: Seq<char>| plain_html(kind, m)), 0)
}

/// Runs a plain pass (see `plain_pass_result`).
pub fn plain_pass(s: &str, kind: &PlainKind) -> (r: String)
    ensures
        r@ == plain_pass_result(*kind, s@),
{
    let pattern = match kind {
        PlainKind::Bytefield => BYTEFIELD_BLOCK,
        PlainKind::Pikchr => PIKCHR_BLOCK,
        PlainKind::Wavedrom => WAVEDROM_BLOCK,
    };
    let ms = block_matches(pattern, s);
    let ghost mv = sviews(ms@);
    let mut reps: Vec<String> = Vec::new();
    let mut i: usize = 0;
    while i < ms.len()
        invariant
            i <= ms.len(),
            mv == sviews(ms@),
            sviews(reps@) =~= mv.take(i as int).map_values(|m: Seq<char>| plain_html(*kind, m)),
        decreases ms.len() - i,
    {
        let h = match kind {
            PlainKind::Bytefield => bytefield_gen_html(ms[i].as_str()),
            PlainKind::Pikchr => pikchr_gen_html(ms[i].as_str()),
            PlainKind::Wavedrom => wavedrom_gen_html(ms[i].as_str()),
        };
        assert(mv[i as int] == ms@[i as int]@);
        let ghost before = sviews(reps@);
        reps.push(h);
        assert(sviews(reps@) =~= before.push(plain_html(*kind, mv[i as int])));
        assert(mv.take(i + 1) =~= mv.take(i as int).push(mv[i as int]));
        i = i + 1;
    }
    assert(mv.take(i as int) =~= mv);
    replace_each(s, &ms, &reps)
}

/// The passes whose blocks are compiled outside the library.
pub enum CompiledKind {
    LatexDocument,
    Tikz,
    Typst,
}

/// The pattern of a compiled pass.
pub open spec fn compiled_pattern(kind: CompiledKind) -> Seq<char> {
    match kind {
        CompiledKind::LatexDocument => LATEX_TEX_BLOCK@,
        CompiledKind::Tikz => LATEX_TIKZ_BLOCK@,
        CompiledKind::Typst => TYPST_BLOCK@,
    }
}

/// What replaces a block of a compiled pass, from what compiling it gave
/// (an `<img>` tag, or the SVG for Typst; none when it failed).
pub open spec fn compiled_html(kind: CompiledKind, mat: Seq<char>, out: Option<Seq<char>>) -> Seq<char> {
    match kind {
        CompiledKind::LatexDocument => latex_block_html(mat, out),
        CompiledKind::Tikz => tikz_block_html(mat, out),
        CompiledKind::Typst => typst_block_html(mat, out),
    }
}

/// What compiling the `k`-th block gave.
pub open spec fn output_at(outs: Seq<Option<String>>, k: int) -> Option<Seq<char>> {
    if 0 <= k < outs.len() {
        match outs[k] {
            Some(x) => Some(x@),
            None => None,
        }
    } else {
        None
    }
}

/// A compiled pass over a chapter, the `k`-th block found replaced using
/// `outs[k]` (see `block_matches` for the blocks to compile).
pub open spec fn compiled_pass_result(kind: CompiledKind, s: Seq<char>, outs: Seq<Option<String>>) -> Seq<char> {
    let ms = block_matches_of(compiled_pattern(kind), s);
    each_replaced(s, ms, Seq::new(ms.len(), |k: int| compiled_html(kind, ms[k], output_at(outs, k))), 0)
}

/// Runs a compiled pass (see `compiled_pass_result`).
pub fn compiled_pass(s: &str, kind: &CompiledKind, outs: &Vec<Option<String>>) -> (r: String)
    ensures
        r@ == compiled_pass_result(*kind, s@, outs@),
{
    let pattern = match kind {
        CompiledKind::LatexDocument => LATEX_TEX_BLOCK,
        CompiledKind::Tikz => LATEX_TIKZ_BLOCK,
        CompiledKind::Typst => TYPST_BLOCK,
    };
    let ms = block_matches(pattern, s);
    let ghost mv = sviews(ms@);
    let ghost want = Seq::new(mv.len(), |k: int| compiled_html(*kind, mv[k], output_at(outs@, k)));
    let mut reps: Vec<String> = Vec::new();
    let mut i: usize = 0;
    while i < ms.len()
        invariant
            i <= ms.len(),
            mv == sviews(ms@),
            want == Seq::new(mv.len(), |k: int| compiled_html(*kind, mv[k], output_at(outs@, k))),
            sviews(reps@) =~= want.take(i as int),
        decreases ms.len() - i,
    {
        let out: Option<&str> = if i < outs.len() {
            match &outs[i] {
                Some(x) => Some(x.as_str()),
                None => None,
            }
        } else {
            None
        };
        assert(opt_str_view(out) == output_at(outs@, i as int));
        let h = match kind {
            CompiledKind::LatexDocument => latex_gen_file(ms[i].as_str(), out),
            CompiledKind::Tikz => tikz_gen_file(ms[i].as_str(), out),
            CompiledKind::Typst => typst_gen_file(ms[i].as_str(), out),
        };
        assert(mv[i as int] == ms@[i as int]@);
        assert(h@ == want[i as int]);
        let ghost before = sviews(reps@);
        reps.push(h);
        assert(sviews(reps@) =~= before.push(want[i as int]));
        assert(want.take(i + 1) =~= want.take(i as int).push(want[i as int]));
        i = i + 1;
    }
    assert(want.take(i as int) =~= want);
    replace_each(s, &ms, &reps)
}

/// What replaces a block of a pass with random ids (ECharts when
/// `echarts`, Svgbob otherwise) under the id `id`.
pub open spec fn random_id_html(echarts: bool, mat: Seq<char>, id: Seq<char>) -> Seq<char> {
    if echarts {
        echarts_html(mat, id)
    } else {
        svgbob_html(mat, id)
    }
}

/// `reps` replaces the blocks `ms` of a pass with random ids: each block by
/// what it builds under some 32-digit id of `ids`.
pub open spec fn built_with_ids(ms: Seq<Seq<char>>, reps: Seq<Seq<char>>, ids: Seq<Seq<char>>, echarts: bool) -> bool {
    &&& reps.len() == ms.len()
    &&& ids.len() == ms.len()
    &&& forall|k: int| 0 <= k < ms.len() ==> (#[trigger] ids[k]).len() == 32 && reps[k] == random_id_html(
        echarts,
        ms[k],
        ids[k],
    )
}

/// `reps` replaces the blocks `ms` under some ids (see `built_with_ids`).
pub open spec fn random_blocks_built(ms: Seq<Seq<char>>, reps: Seq<Seq<char>>, echarts: bool) -> bool {
    exists|ids: Seq<Seq<char>>| #[trigger] built_with_ids(ms, reps, ids, echarts)
}

/// Builds the blocks of a pass whose blocks carry random ids: each block's
/// text and what replaces it.
fn random_id_blocks(s: &str, echarts: bool) -> (r: (Vec<String>, Vec<String>))
    ensures
        sviews(r.0@) == block_matches_of(if echarts { ECHARTS_BLOCK@ } else { BOB_BLOCK@ }, s@),
        random_blocks_built(sviews(r.0@), sviews(r.1@), echarts),
{
    let ms = if echarts {
        block_matches(ECHARTS_BLOCK, s)
    } else {
        block_matches(BOB_BLOCK, s)
    };
    let mut reps: Vec<String> = Vec::new();
    let ghost mut ids: Seq<Seq<char>> = seq![];
    let mut i: usize = 0;
    while i < ms.len()
        invariant
            i <= ms.len(),
            built_with_ids(sviews(ms@).take(i as int), sviews(reps@), ids, echarts),
        decreases ms.len() - i,
    {
        let h = if echarts {
            echarts_gen_html(ms[i].as_str())
        } else {
            svgbob_gen_html(ms[i].as_str())
        };
        let ghost id = choose|id: Seq<char>| id.len() == 32 && h@ == random_id_html(echarts, ms@[i as int]@, id);
        let ghost before = sviews(reps@);
        reps.push(h);
        proof {
            ids = ids.push(id);
        }
        assert(sviews(reps@) =~= before.push(h@));
        assert(sviews(ms@).take(i + 1) =~= sviews(ms@).take(i as int).push(ms@[i as int]@));
        i = i + 1;
    }
    assert(sviews(ms@).take(i as int) =~= sviews(ms@));
    assert(built_with_ids(sviews(ms@), sviews(reps@), ids, echarts));
    (ms, reps)
}

/// The ECharts pass: each block replaced by its chart under a fresh random
/// id.
pub fn echarts_pass(s: &str) -> (r: String)
    ensures
        exists|reps: Seq<Seq<char>>|
            #[trigger] random_blocks_built(block_matches_of(ECHARTS_BLOCK@, s@), reps, true) && r@
                == each_replaced(s@, block_matches_of(ECHARTS_BLOCK@, s@), reps, 0),
{
    let (ms, reps) = random_id_blocks(s, true);
    let r = replace_each(s, &ms, &reps);
    r
}

/// The Svgbob pass: each block replaced by its drawing under a fresh random
/// id.
pub fn bob_pass(s: &str) -> (r: String)
    ensures
        exists|reps: Seq<Seq<char>>|
            #[trigger] random_blocks_built(block_matches_of(BOB_BLOCK@, s@), reps, false) && r@
                == each_replaced(s@, block_matches_of(BOB_BLOCK@, s@), reps, 0),
{
    let (ms, reps) = random_id_blocks(s, false);
    let r = replace_each(s, &ms, &reps);
    r
}

/// The passes after ECharts and Svgbob, with nothing compiled: Bytefield,
/// LaTeX documents, TikZ, Pikchr, Typst, WaveDrom.
pub open spec fn passes_after_drawings(s: Seq<char>) -> Seq<char> {
    let b = plain_pass_result(PlainKind::Bytefield, s);
    let l = compiled_pass_result(CompiledKind::LatexDocument, b, seq![]);
    let t = compiled_pass_result(CompiledKind::Tikz, l, seq![]);
    let p = plain_pass_result(PlainKind::Pikchr, t);
    let y = compiled_pass_result(CompiledKind::Typst, p, seq![]);
    plain_pass_result(PlainKind::Wavedrom, y)
}

/// The chapter after the ECharts and Svgbob passes, their blocks replaced
/// by `reps1` and `reps2`.
pub open spec fn drawings_done(content: Seq<char>, reps1: Seq<Seq<char>>, reps2: Seq<Seq<char>>) -> Seq<char> {
    let s1 = each_replaced(content, block_matches_of(ECHARTS_BLOCK@, content), reps1, 0);
    each_replaced(s1, block_matches_of(BOB_BLOCK@, s1), reps2, 0)
}

/// `reps1` and `reps2` are what the ECharts and Svgbob passes build, under
/// some ids.
pub open spec fn drawings_valid(content: Seq<char>, reps1: Seq<Seq<char>>, reps2: Seq<Seq<char>>) -> bool {
    let s1 = each_replaced(content, block_matches_of(ECHARTS_BLOCK@, content), reps1, 0);
    random_blocks_built(block_matches_of(ECHARTS_BLOCK@, content), reps1, true) && random_blocks_built(
        block_matches_of(BOB_BLOCK@, s1),
        reps2,
        false,
    )
}

/// The entry the unified preprocessor calls, where no diagram is compiled:
/// every pass in order, the compiled kinds falling back to their source (a
/// LaTeX document to latex.js).
pub fn process_content(content: &str) -> (r: String)
    ensures
        exists|reps1: Seq<Seq<char>>, reps2: Seq<Seq<char>>|
            #[trigger] drawings_valid(content@, reps1, reps2) && r@ == passes_after_drawings(
                drawings_done(content@, reps1, reps2),
            ),
{
    let s1 = echarts_pass(content);
    let s2 = bob_pass(s1.as_str());
    let ghost reps1 = choose|reps: Seq<Seq<char>>|
        #[trigger] random_blocks_built(block_matches_of(ECHARTS_BLOCK@, content@), reps, true) && s1@
            == each_replaced(content@, block_matches_of(ECHARTS_BLOCK@, content@), reps, 0);
    let ghost reps2 = choose|reps: Seq<Seq<char>>|
        #[trigger] random_blocks_built(block_matches_of(BOB_BLOCK@, s1@), reps, false) && s2@
            == each_replaced(s1@, block_matches_of(BOB_BLOCK@, s1@), reps, 0);
    assert(drawings_valid(content@, reps1, reps2));
    assert(drawings_done(content@, reps1, reps2) == s2@);
    let none: Vec<Option<String>> = Vec::new();
    assert(none@ =~= Seq::<Option<String>>::empty());
    let b = plain_pass(s2.as_str(), &PlainKind::Bytefield);
    let l = compiled_pass(b.as_str(), &CompiledKind::LatexDocument, &none);
    let t = compiled_pass(l.as_str(), &CompiledKind::Tikz, &none);
    let p = plain_pass(t.as_str(), &PlainKind::Pikchr);
    let y = compiled_pass(p.as_str(), &CompiledKind::Typst, &none);
    plain_pass(y.as_str(), &PlainKind::Wavedrom)
}

// ───────────────────────── cached diagrams ─────────────────────────

/// A `data-pdf-hash` attribute of a diagram container.
pub const HASH_ATTRIBUTE: &'static str = "data-pdf-hash=\"([0-9a-f]{64})\"";
/// A file named by a diagram's hash (`{hash}.svg`, `{hash}.pdf`, or a page
/// `{hash}.p{i}.svg`).
pub const HASH_FILE: &'static str = "([0-9a-f]{64})(?:\\.p\\d+)?\\.(?:svg|pdf)";

/// The first groups of the matches of `pattern` in `content`.
pub open spec fn first_groups(pattern: Seq<char>, content: Seq<char>) -> Seq<Seq<char>> {
    regex_pieces(pattern, content).0.map_values(|p: (Seq<char>, Seq<Option<Seq<char>>>)| group_text(p.1, 1))
}

/// A hash the chapter refers to, by a container's attribute or by a file
/// name.
pub open spec fn refers_to(content: Seq<char>, h: Seq<char>) -> bool {
    first_groups(HASH_ATTRIBUTE@, content).contains(h) || first_groups(HASH_FILE@, content).contains(h)
}

/// Adds to `refs` the first group of each match of `pattern`.
fn add_first_groups(refs: &mut Vec<Vec<char>>, pattern: &str, content: &str)
    requires
        strictly_sorted(crate::text::vviews(old(refs)@)),
    ensures
        strictly_sorted(crate::text::vviews(final(refs)@)),
        forall|x: Seq<char>| #[trigger] crate::text::vviews(final(refs)@).contains(x) <==> (crate::text::vviews(
            old(refs)@,
        ).contains(x) || first_groups(pattern@, content@).contains(x)),
{
    let (pieces, _tail) = regex_split(pattern, content);
    let ghost pv = pieces_view(pieces@);
    let ghost fg = pv.map_values(|p: (Seq<char>, Seq<Option<Seq<char>>>)| group_text(p.1, 1));
    let ghost start = crate::text::vviews(refs@);
    let mut i: usize = 0;
    while i < pieces.len()
        invariant
            i <= pieces.len(),
            pv == pieces_view(pieces@),
            fg == pv.map_values(|p: (Seq<char>, Seq<Option<Seq<char>>>)| group_text(p.1, 1)),
            strictly_sorted(crate::text::vviews(refs@)),
            forall|x: Seq<char>| #[trigger] crate::text::vviews(refs@).contains(x) <==> (start.contains(x)
                || fg.take(i as int).contains(x)),
        decreases pieces.len() - i,
    {
        let g = &pieces[i].1;
        let h: Vec<char> = if g.len() > 1 {
            match &g[1] {
                Some(t) => to_chars(t.as_str()),
                None => Vec::new(),
            }
        } else {
            Vec::new()
        };
        assert(h@ == fg[i as int]);
        insert_sorted(refs, h);
        proof {
            let w = fg.take(i as int);
            let w1 = fg.take(i + 1);
            assert(w1 =~= w.push(fg[i as int]));
            assert forall|x: Seq<char>| #[trigger] w1.contains(x) <==> (w.contains(x) || x == fg[i as int]) by {
                if w1.contains(x) {
                    let k = choose|k: int| 0 <= k < w1.len() && w1[k] == x;
                    if k < w.len() {
                        assert(w[k] == x);
                    }
                }
                if w.contains(x) {
                    let k = choose|k: int| 0 <= k < w.len() && w[k] == x;
                    assert(w1[k] == x);
                }
                if x == fg[i as int] {
                    assert(w1[i as int] == x);
                }
            }
        }
        i = i + 1;
    }
    assert(fg.take(pieces@.len() as int) =~= fg);
}

/// Adds to `refs` (kept sorted, each hash once) the diagram hashes a
/// chapter refers to (see `refers_to`).
pub fn collect_referenced_from_content(content: &str, refs: &mut Vec<String>)
    requires
        strictly_sorted(sviews(old(refs)@)),
    ensures
        strictly_sorted(sviews(final(refs)@)),
        forall|x: Seq<char>| #[trigger] sviews(final(refs)@).contains(x) <==> (sviews(old(refs)@).contains(x)
            || refers_to(content@, x)),
{
    let mut v: Vec<Vec<char>> = Vec::new();
    let mut i: usize = 0;
    while i < refs.len()
        invariant
            i <= refs.len(),
            crate::text::vviews(v@) == sviews(refs@).take(i as int),
        decreases refs.len() - i,
    {
        let ghost before = crate::text::vviews(v@);
        v.push(to_chars(refs[i].as_str()));
        assert(crate::text::vviews(v@) =~= before.push(refs@[i as int]@));
        assert(sviews(refs@).take(i + 1) =~= sviews(refs@).take(i as int).push(refs@[i as int]@));
        i = i + 1;
    }
    assert(sviews(refs@).take(refs@.len() as int) =~= sviews(refs@));
    add_first_groups(&mut v, HASH_ATTRIBUTE, content);
    add_first_groups(&mut v, HASH_FILE, content);
    let mut out: Vec<String> = Vec::new();
    let mut k: usize = 0;
    while k < v.len()
        invariant
            k <= v.len(),
            sviews(out@) == crate::text::vviews(v@).take(k as int),
        decreases v.len() - k,
    {
        let ghost before = sviews(out@);
        out.push(crate::text::from_chars(&v[k]));
        assert(sviews(out@) =~= before.push(v@[k as int]@));
        assert(crate::text::vviews(v@).take(k + 1) =~= crate::text::vviews(v@).take(k as int).push(v@[k as int]@));
        k = k + 1;
    }
    assert(crate::text::vviews(v@).take(v@.len() as int) =~= crate::text::vviews(v@));
    *refs = out;
}

/// A cache file name: a diagram hash, an optional page, then `.svg` or
/// `.pdf`, and nothing else.
pub const CACHE_FILE_NAME: &'static str = "^([0-9a-f]{64})(?:\\.p\\d+)?\\.(?:svg|pdf)$";

/// The diagram hashes the chapters reference, sorted, each once: `x` is
/// among them exactly when some chapter refers to it.
pub fn collect_referenced_diagram_hashes(chapters: &[String]) -> (r: Vec<String>)
    ensures
        strictly_sorted(sviews(r@)),
        forall|x: Seq<char>| #[trigger] sviews(r@).contains(x) <==> (exists|i: int|
            0 <= i < chapters@.len() && refers_to(#[trigger] chapters@[i]@, x)),
{
    let mut refs: Vec<String> = Vec::new();
    assert(sviews(refs@) =~= seq![]);
    let mut i: usize = 0;
    while i < chapters.len()
        invariant
            i <= chapters.len(),
            strictly_sorted(sviews(refs@)),
            forall|x: Seq<char>| #[trigger] sviews(refs@).contains(x) <==> (exists|k: int|
                0 <= k < i && refers_to(#[trigger] chapters@[k]@, x)),
        decreases chapters.len() - i,
    {
        collect_referenced_from_content(chapters[i].as_str(), &mut refs);
        assert forall|x: Seq<char>| #[trigger] sviews(refs@).contains(x) <==> (exists|k: int|
            0 <= k < i + 1 && refers_to(#[trigger] chapters@[k]@, x)) by {
            if refers_to(chapters@[i as int]@, x) {
                assert(0 <= i < i + 1 && refers_to(chapters@[i as int]@, x));
            }
        }
        i = i + 1;
    }
    refs
}

/// A file of the images directory is an orphan cache file: its name is a
/// cache file name whose hash no chapter refers to. (Nothing is an orphan
/// when no hash is referred to at all.)
pub open spec fn orphan_file(name: Seq<char>, referenced: Seq<Seq<char>>) -> bool {
    referenced.len() > 0 && match crate::pattern::regex_first_group(CACHE_FILE_NAME@, name, 1) {
        Some(Some(h)) => !referenced.contains(h),
        _ => false,
    }
}

/// Whether a file of the images directory is to be removed (see
/// `orphan_file`).
pub fn is_orphan_diagram(name: &str, referenced: &Vec<String>) -> (r: bool)
    ensures
        r == orphan_file(name@, sviews(referenced@)),
{
    if referenced.len() == 0 {
        return false;
    }
    match crate::pattern::regex_capture(CACHE_FILE_NAME, name, 1) {
        Some(Some(h)) => {
            let mut i: usize = 0;
            while i < referenced.len()
                invariant
                    i <= referenced.len(),
                    referenced.len() > 0,
                    crate::pattern::regex_first_group(CACHE_FILE_NAME@, name@, 1) == Some(Some(h@)),
                    forall|k: int| 0 <= k < i ==> sviews(referenced@)[k] != h@,
                decreases referenced.len() - i,
            {
                if crate::text::str_eq(referenced[i].as_str(), h.as_str()) {
                    assert(sviews(referenced@)[i as int] == h@);
                    return false;
                }
                i = i + 1;
            }
            true
        },
        _ => false,
    }
}

} // verus!
