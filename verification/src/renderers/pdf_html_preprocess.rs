//! HTML preprocessing before the book is printed by Chrome: chapter anchors
//! for the PDF outline, the readiness script, print and font style sheets,
//! removal of blocking CDN resources, and static links in place of the
//! interactive PDF previews.
use vstd::prelude::*;
use crate::pattern::{groups_view, pieces_view, regex_pieces, regex_replace_all, regex_replaced_all, regex_split};
use crate::preprocessors::embedify::group_text;
use crate::text::{
    contains, contains_str, decimal, ends_with, extend_decimal, extend_range, extend_str, find,
    find_char_from, find_from, find_str, find_str_from, from_chars, lemma_find_from, match_at,
    opt_int, push_all, push_range, rfind, rfind_str, starts_with, starts_with_at, starts_with_str, to_chars,
    ascii_lower, ascii_lower_exec, ends_with_str, lemma_rfind_before,
};
use crate::utils::{tag_close, tag_close_exec};
use crate::html::{html_picked, picked_views, select_elements, PickedView};
use crate::text::{join, replace_str, replaced};
use crate::build_search::{lex_lt, lex_lt_exec};
use crate::preprocessors::langtabs::hex_digits;
use vstd::utf8::encode_utf8;

verus! {

broadcast use vstd::string::group_string_axioms;

/// Part of the injected script.
pub const JS_HEAD: &'static str = r##"<script type='text/javascript'>
// ── Emoji 函数定义（必须先于调用）──
"##;

/// Part of the injected script.
pub const JS_MIDDLE: &'static str = r##"
// ── 全局进度状态标记（供 Rust 侧轮询）──
window.__mdbookPdfDomReady = false;
window.__mdbookPdfPageLoaded = false;
window.__mdbookPdfFontsReady = false;
window.__mdbookPdfEmojiDone = false;
window.__mdbookPdfContentReady = false;
window.__pdfRenderLatch = window.__pdfRenderLatch || [];

// ── 阶段 1：DOM 就绪 ──
document.addEventListener('DOMContentLoaded', function () {
    window.__mdbookPdfDomReady = true;
});

// ── 阶段 2：window.load（等待所有资源，包括字体，加载完成）──
window.addEventListener('load', function () {
    window.__mdbookPdfPageLoaded = true;
    window.__mdbookPdfFontsReady = true;

    // 1. DOM 操作：展开 details，移除页眉/页脚
    for (var d of document.getElementsByTagName('details')) d.open = true;
    var ph = document.getElementById('mdbook-print-header');
    var pf = document.getElementById('mdbook-print-footer');
    if (ph) ph.remove();
    if (pf) pf.remove();

    // 2. Emoji 处理（同步执行，正则预过滤极快）
    "##;

/// Part of the injected script.
pub const JS_TAIL: &'static str = r##"

    // 3. 等 2 帧 — 确保布局完成
    var frameCount = 2;
    function frame() {
        if (--frameCount <= 0) {
            window.__mdbookPdfContentReady = true;
            var p = document.createElement('div');
            p.setAttribute('id', 'content-has-all-loaded-for-mdbook-pdf-generation');
            document.body.appendChild(p);
        } else {
            requestAnimationFrame(frame);
        }
    }
    requestAnimationFrame(frame);
});

// MathJax 异步加载兼容
(function () {
    var mjTimer = setInterval(function () {
        try {
            if (window.MathJax && MathJax.Hub) {
                clearInterval(mjTimer);
                MathJax.Hub.Register.StartupHook('End', function () {
                    window.__pdfRenderLatch.push(Promise.resolve());
                });
            }
        } catch (e) {}
    }, 200);
    setTimeout(function () { clearInterval(mjTimer); }, 60000);
})();
</script>"##;

/// The emoji helpers of the injected script.
pub const JS_EMOJI_DEFS: &'static str = r##"
// ── Emoji 处理：优化版 ──
// 使用二分查找代替 Map 构建（零初始化开销）
// 使用快速跳过优化（纯 ASCII 文本直接跳过）
var EMOJI_RANGES = [
    [0x00A9,0x00AE],
    [0x200D,0x200D],
    [0x203C,0x2049],
    [0x20E3,0x20E3],
    [0x2122,0x2139],
    [0x2194,0x2199],
    [0x21A9,0x21AA],
    [0x231A,0x231B],
    [0x2328,0x2328],
    [0x23CF,0x23CF],
    [0x23E9,0x23F3],
    [0x23F8,0x23FA],
    [0x24C2,0x24C2],
    [0x25AA,0x25AB],
    [0x25B6,0x25B6],
    [0x25C0,0x25C0],
    [0x25FB,0x25FE],
    [0x2600,0x27BF],
    [0x2934,0x2935],
    [0x2B05,0x2B07],
    [0x2B1B,0x2B1C],
    [0x2B50,0x2B50],
    [0x2B55,0x2B55],
    [0x3030,0x3030],
    [0x303D,0x303D],
    [0x3297,0x3297],
    [0x3299,0x3299],
    [0xFE00,0xFE0F],
    [0x1F000,0x1FFFF],
    [0x1F1E6,0x1F1FF],
];

function isEmoji(cp) {
    if (cp < 0x00A9 || cp > 0x1FFFF) return false;
    var lo = 0, hi = EMOJI_RANGES.length - 1;
    while (lo <= hi) {
        var mid = (lo + hi) >> 1;
        var r = EMOJI_RANGES[mid];
        if (cp < r[0]) hi = mid - 1;
        else if (cp > r[1]) lo = mid + 1;
        else return true;
    }
    return false;
}

// 快速检测：文本是否可能包含 emoji（使用 charCodeAt，比 codePointAt 快）
function hasEmoji(text) {
    for (var i = 0; i < text.length; i++) {
        var cp = text.charCodeAt(i);
        // 纯 ASCII 快速跳过（大部分技术文档正文）
        if (cp < 0x00A9) continue;
        // BMP 范围快速检查
        if (cp <= 0x00AE || (cp >= 0x200D && cp <= 0x2049) ||
            (cp >= 0x20E3 && cp <= 0x20E3) ||
            (cp >= 0x2122 && cp <= 0x2139) || (cp >= 0x2194 && cp <= 0x21AA) ||
            (cp >= 0x231A && cp <= 0x23F3) || (cp >= 0x23F8 && cp <= 0x23FA) ||
            (cp >= 0x24C2 && cp <= 0x24C2) || (cp >= 0x25AA && cp <= 0x25FE) ||
            (cp >= 0x2600 && cp <= 0x27BF) || (cp >= 0x2934 && cp <= 0x2935) ||
            (cp >= 0x2B05 && cp <= 0x2B07) || (cp >= 0x2B1B && cp <= 0x2B1C) ||
            (cp >= 0x2B50 && cp <= 0x2B50) || (cp >= 0x2B55 && cp <= 0x2B55) ||
            (cp >= 0x3030 && cp <= 0x3030) || (cp >= 0x303D && cp <= 0x303D) ||
            (cp >= 0x3297 && cp <= 0x3297) || (cp >= 0x3299 && cp <= 0x3299) ||
            (cp >= 0xFE00 && cp <= 0xFE0F)) {
            return true;
        }
        // 代理对检查（补充平面 emoji）
        if (cp >= 0xD800 && cp <= 0xDBFF && i + 1 < text.length) {
            var low = text.charCodeAt(i + 1);
            if (low >= 0xDC00 && low <= 0xDFFF) {
                var codePoint = ((cp - 0xD800) << 10) + (low - 0xDC00) + 0x10000;
                if (codePoint >= 0x1F000 && codePoint <= 0x1FFFF) return true;
            }
        }
    }
    return false;
}

// 计算 emoji 序列长度（处理 ZWJ、键帽、国旗等复合序列）
function emojiLen(text, i) {
    if (i >= text.length) return 0;
    var cp = text.codePointAt(i);
    if (cp === 0x0023 || cp === 0x002A || (cp >= 0x0030 && cp <= 0x0039)) {
        var j = i + 1;
        if (j < text.length && text.codePointAt(j) === 0xFE0F) j++;
        if (j < text.length && text.codePointAt(j) === 0x20E3) return j + 1 - i;
        return 0;
    }
    if (!isEmoji(cp)) return 0;
    var cl = cp > 0xFFFF ? 2 : 1;
    var total = cl;
    for (var j = i + cl; j < text.length;) {
        var nc = text.codePointAt(j);
        if (nc === 0x200D) {
            total += 1; j += 1;
            if (j >= text.length) break;
            var ec = text.codePointAt(j);
            if (!isEmoji(ec)) break;
            var el = ec > 0xFFFF ? 2 : 1;
            total += el; j += el;
        } else if (nc === 0xFE0F || nc === 0xFE0E) {
            total += 1; j += 1;
        } else if (nc === 0x20E3) {
            total += 1; j += 1;
        } else if (nc >= 0x1F1E6 && nc <= 0x1F1FF && j + 1 < text.length) {
            var nc2 = text.codePointAt(j + 1);
            if (nc2 >= 0x1F1E6 && nc2 <= 0x1F1FF) { total += 4; j += 2; }
            else break;
        } else break;
    }
    return total;
}

// Emoji 处理：快速跳过 + 同步替换
function processEmojiSync() {
    var walker = document.createTreeWalker(document.body, NodeFilter.SHOW_TEXT);
    var emojiNodes = [];
    while (walker.nextNode()) {
        // 快速预过滤：大部分文本节点不包含 emoji
        if (hasEmoji(walker.currentNode.textContent)) {
            emojiNodes.push(walker.currentNode);
        }
    }

    for (var n = 0; n < emojiNodes.length; n++) {
        var node = emojiNodes[n], text = node.textContent, frag = null;
        var pos = 0, last = 0;
        while (pos < text.length) {
            var sl = emojiLen(text, pos);
            if (sl > 0) {
                if (!frag) frag = document.createDocumentFragment();
                if (pos > last) frag.appendChild(document.createTextNode(text.slice(last, pos)));
                var sp = document.createElement('span');
                sp.className = 'emoji-render';
                sp.textContent = text.slice(pos, pos + sl);
                frag.appendChild(sp);
                pos += sl; last = pos;
            } else {
                pos += (text.codePointAt(pos) > 0xFFFF ? 2 : 1);
            }
        }
        if (frag) {
            if (last < text.length) frag.appendChild(document.createTextNode(text.slice(last)));
            node.parentNode.replaceChild(frag, node);
        }
    }
}
"##;

/// The emoji pass, when enabled.
pub const JS_EMOJI_CALL_ON: &'static str = r##"
    // 3. Emoji 结构化隔离（正则预过滤 + 同步替换）
    processEmojiSync();
    window.__mdbookPdfEmojiDone = true;
"##;

/// The emoji pass, when disabled.
pub const JS_EMOJI_CALL_OFF: &'static str = r##"
    // 3. Emoji 处理已禁用，直接标记完成
    window.__mdbookPdfEmojiDone = true;
"##;

/// The print style sheet.
pub const PRINT_CSS: &'static str = r##"<style>
@media print {
    pre, code, pre code {
        page-break-inside: avoid;
    }
    table {
        page-break-inside: avoid;
    }
    img {
        page-break-inside: avoid;
    }
    h1, h2, h3, h4, h5, h6 {
        page-break-after: avoid;
    }
    a[href]::after {
        content: none !important;
    }
    /* 抑制主题打印页眉/页脚，避免与 Chrome CDP displayHeaderFooter 冲突 */
    #mdbook-print-header, #mdbook-print-footer {
        display: none !important;
    }
}
</style>"##;

/// The CJK font fallback style sheet.
pub const FONT_CSS: &'static str = r##"<style>
body {
    font-family: -apple-system, BlinkMacSystemFont, "Segoe UI", Roboto,
        "Noto Sans SC", "Microsoft YaHei", "PingFang SC",
        "Hiragino Sans GB", "WenQuanYi Micro Hei",
        "Apple Color Emoji", "Segoe UI Emoji", "Noto Color Emoji",
        "Helvetica Neue", Arial, sans-serif;
}
code, pre {
    font-family: "Cascadia Code", "JetBrains Mono", "Fira Code",
        "Source Code Pro", "Noto Sans Mono CJK SC",
        "Microsoft YaHei Mono", Consolas, monospace;
}
</style>"##;


// ───────────────────────── insertion ─────────────────────────

/// `original` with `insertion` placed before the first `target`, or at the
/// end when there is none.
pub open spec fn inserted_before(original: Seq<char>, target: Seq<char>, insertion: Seq<char>) -> Seq<char> {
    match find(original, target) {
        Some(pos) => original.take(pos) + insertion + original.skip(pos),
        None => original + insertion,
    }
}

/// Inserts `insertion` before the first `target` in `original` (appends it
/// when `target` does not occur).
pub fn insert_before(original: &str, target: &str, insertion: &str) -> (r: String)
    ensures
        r@ == inserted_before(original@, target@, insertion@),
{
    let o = to_chars(original);
    match find_str(&o, target) {
        Some(pos) => {
            proof {
                lemma_find_from(o@, target@, 0);
            }
            let mut r = String::new();
            push_range(&mut r, &o, 0, pos);
            r.append(insertion);
            push_range(&mut r, &o, pos, o.len());
            assert(o@.subrange(0, pos as int) =~= o@.take(pos as int));
            assert(o@.subrange(pos as int, o@.len() as int) =~= o@.skip(pos as int));
            r
        },
        None => {
            let mut r = String::new();
            r.append(original);
            r.append(insertion);
            r
        },
    }
}

/// Whether `insert_before` finds its target: then the insertion sits right
/// before the first occurrence and everything else is kept in order.
pub proof fn law_insert_before_places_insertion(original: Seq<char>, target: Seq<char>, insertion: Seq<char>)
    requires
        contains(original, target),
    ensures
        ({
            let pos = find(original, target)->0;
            let r = inserted_before(original, target, insertion);
            &&& r.len() == original.len() + insertion.len()
            &&& r.subrange(pos, pos + insertion.len()) =~= insertion
            &&& r.skip(pos + insertion.len()) =~= original.skip(pos)
            &&& r.take(pos) =~= original.take(pos)
            &&& match_at(r, target, pos + insertion.len())
        }),
{
    lemma_find_from(original, target, 0);
    let pos = find(original, target)->0;
    let r = inserted_before(original, target, insertion);
    assert(r.subrange(pos + insertion.len(), pos + insertion.len() + target.len()) =~= original.subrange(
        pos,
        pos + target.len(),
    ));
}

// ───────────────────────── chapter anchors ─────────────────────────

/// `/` and `\` become `-`.
pub open spec fn dash_separator(c: char) -> char {
    if c == '/' || c == '\\' {
        '-'
    } else {
        c
    }
}

/// The PDF destination name of a chapter path: `.md` dropped, path
/// separators turned into `-`, ASCII letters lowered.
pub open spec fn path_id(path: Seq<char>) -> Seq<char> {
    let base = if ends_with(path, ".md"@) {
        path.take(path.len() - 3)
    } else {
        path
    };
    base.map_values(|c: char| ascii_lower(dash_separator(c)))
}

/// Chapter path → PDF named destination: `"chapter/01-setup.md"` →
/// `"chapter-01-setup"`.
pub fn chapter_path_to_id(path: &str) -> (r: String)
    ensures
        r@ == path_id(path@),
{
    proof {
        reveal_strlit(".md");
    }
    let p = to_chars(path);
    let end = if ends_with_str(&p, ".md") {
        p.len() - 3
    } else {
        p.len()
    };
    let ghost base = if ends_with(path@, ".md"@) {
        path@.take(path@.len() - 3)
    } else {
        path@
    };
    assert(base =~= p@.take(end as int));
    let mut r = String::new();
    let mut i: usize = 0;
    while i < end
        invariant
            end <= p.len(),
            i <= end,
            base =~= p@.take(end as int),
            r@ =~= base.take(i as int).map_values(|c: char| ascii_lower(dash_separator(c))),
        decreases end - i,
    {
        let c = p[i];
        let d = if c == '/' || c == '\\' {
            '-'
        } else {
            c
        };
        crate::text::push_char(&mut r, ascii_lower_exec(d));
        i = i + 1;
        assert(base.take(i as int).map_values(|c: char| ascii_lower(dash_separator(c))) =~= base.take(
            (i - 1) as int,
        ).map_values(|c: char| ascii_lower(dash_separator(c))).push(
            ascii_lower(dash_separator(base[i - 1])),
        ));
    }
    assert(base.take(end as int) =~= base);
    r
}

/// The hidden anchors of the chapters `paths`, one `<a id=…></a>` each.
pub open spec fn anchor_links(paths: Seq<Seq<char>>) -> Seq<char>
    decreases paths.len(),
{
    if paths.len() == 0 {
        seq![]
    } else {
        anchor_links(paths.drop_last()) + "<a id=\""@ + path_id(paths.last()) + "\"></a>"@
    }
}

/// The views of a list of strings.
pub open spec fn views(v: Seq<String>) -> Seq<Seq<char>> {
    v.map_values(|s: String| s@)
}

/// The anchor block placed before `</body>`.
pub open spec fn toc_fixed(html: Seq<char>, paths: Seq<Seq<char>>) -> Seq<char> {
    inserted_before(
        html,
        "</body>"@,
        "<div style=\"display: none\">"@ + anchor_links(paths) + "</div>"@,
    )
}

/// Inserts before `</body>` one hidden anchor per chapter, which Chrome turns
/// into PDF named destinations for the bookmarks.
pub fn inject_toc_fix(html: &str, chapter_paths: &[String]) -> (r: String)
    ensures
        r@ == toc_fixed(html@, views(chapter_paths@)),
{
    let mut toc_fix = String::new();
    toc_fix.append("<div style=\"display: none\">");
    let mut i: usize = 0;
    while i < chapter_paths.len()
        invariant
            i <= chapter_paths.len(),
            toc_fix@ == "<div style=\"display: none\">"@ + anchor_links(views(chapter_paths@).take(i as int)),
        decreases chapter_paths.len() - i,
    {
        let id = chapter_path_to_id(chapter_paths[i].as_str());
        toc_fix.append("<a id=\"");
        toc_fix.append(id.as_str());
        toc_fix.append("\"></a>");
        proof {
            let ps = views(chapter_paths@);
            assert(ps.take(i + 1).drop_last() =~= ps.take(i as int));
            assert(ps.take(i + 1).last() == chapter_paths@[i as int]@);
        }
        i = i + 1;
    }
    toc_fix.append("</div>");
    assert(views(chapter_paths@).take(chapter_paths.len() as int) =~= views(chapter_paths@));
    insert_before(html, "</body>", toc_fix.as_str())
}

// ───────────────────────── script and style sheets ─────────────────────────

/// The readiness script: emoji helpers (when enabled), progress flags polled
/// from Rust, `<details>` expansion on load, the completion sentinel, and a
/// MathJax hook.
pub open spec fn pdf_script(enable_emoji: bool) -> Seq<char> {
    JS_HEAD@ + (if enable_emoji {
        JS_EMOJI_DEFS@
    } else {
        seq![]
    }) + JS_MIDDLE@ + (if enable_emoji {
        JS_EMOJI_CALL_ON@
    } else {
        JS_EMOJI_CALL_OFF@
    }) + JS_TAIL@
}

/// Inserts the readiness script before `</body>`.
pub fn inject_js(html: &str, enable_emoji: bool) -> (r: String)
    ensures
        r@ == inserted_before(html@, "</body>"@, pdf_script(enable_emoji)),
{
    let mut script = String::new();
    script.append(JS_HEAD);
    if enable_emoji {
        script.append(JS_EMOJI_DEFS);
    }
    script.append(JS_MIDDLE);
    if enable_emoji {
        script.append(JS_EMOJI_CALL_ON);
    } else {
        script.append(JS_EMOJI_CALL_OFF);
    }
    script.append(JS_TAIL);
    assert(script@ =~= pdf_script(enable_emoji));
    insert_before(html, "</body>", script.as_str())
}

/// `html` with the print style sheet: before `</head>`, else before `<body`,
/// else in front.
pub open spec fn print_css_injected(html: Seq<char>) -> Seq<char> {
    if contains(html, "</head>"@) {
        inserted_before(html, "</head>"@, PRINT_CSS@)
    } else if contains(html, "<body"@) {
        inserted_before(html, "<body"@, PRINT_CSS@)
    } else {
        PRINT_CSS@ + html
    }
}

/// Injects the print style sheet: no page break inside code, tables or
/// images, none after headings, and the theme's print header/footer hidden.
pub fn inject_print_css(html: &str) -> (r: String)
    ensures
        r@ == print_css_injected(html@),
{
    let h = to_chars(html);
    if contains_str(&h, "</head>") {
        insert_before(html, "</head>", PRINT_CSS)
    } else if contains_str(&h, "<body") {
        insert_before(html, "<body", PRINT_CSS)
    } else {
        let mut r = String::new();
        r.append(PRINT_CSS);
        r.append(html);
        r
    }
}

/// `html` with the CJK font style sheet: before `</head>`, else in front.
pub open spec fn font_css_injected(html: Seq<char>) -> Seq<char> {
    if contains(html, "</head>"@) {
        inserted_before(html, "</head>"@, FONT_CSS@)
    } else {
        FONT_CSS@ + html
    }
}

/// Injects the CJK font fallback style sheet (no tofu boxes in the PDF).
pub fn inject_font_css(html: &str) -> (r: String)
    ensures
        r@ == font_css_injected(html@),
{
    let h = to_chars(html);
    if contains_str(&h, "</head>") {
        insert_before(html, "</head>", FONT_CSS)
    } else {
        let mut r = String::new();
        r.append(FONT_CSS);
        r.append(html);
        r
    }
}


// ───────────────────────── diagram anchors ─────────────────────────

/// From position `p` on, `html` with `id="tikz-grp-{n}" ` inserted before
/// every `data-pdf-hash="`, numbering from `n`.
pub open spec fn tikz_anchored_from(s: Seq<char>, p: int, n: nat) -> Seq<char>
    decreases s.len() + 1 - p,
{
    if p < 0 || p > s.len() {
        seq![]
    } else {
        match find_from(s, "data-pdf-hash=\""@, p) {
            None => s.subrange(p, s.len() as int),
            Some(pos) => {
                proof {
                    reveal_strlit("data-pdf-hash=\"");
                    lemma_find_from(s, "data-pdf-hash=\""@, p);
                }
                s.subrange(p, pos) + "id=\"tikz-grp-"@ + decimal(n) + "\" "@ + "data-pdf-hash=\""@
                    + tikz_anchored_from(s, pos + 15, n + 1)
            },
        }
    }
}

/// Gives every TikZ/Typst diagram (the `<div>` carrying `data-pdf-hash`) an
/// id `tikz-grp-{n}`, numbered in document order from 0, which Chrome turns
/// into a PDF named destination.
pub fn inject_tikz_anchors(html: &str) -> (r: String)
    ensures
        r@ == tikz_anchored_from(html@, 0, 0),
{
    proof {
        reveal_strlit("data-pdf-hash=\"");
    }
    let s = to_chars(html);
    let mut result = String::new();
    let mut p: usize = 0;
    let mut count: u64 = 0;
    while p <= s.len()
        invariant
            p <= s.len(),
            count <= p,
            s@ == html@,
            tikz_anchored_from(s@, 0, 0) == result@ + tikz_anchored_from(s@, p as int, count as nat),
        decreases s.len() + 1 - p,
    {
        match find_str_from(&s, "data-pdf-hash=\"", p) {
            None => {
                push_range(&mut result, &s, p, s.len());
                return result;
            },
            Some(pos) => {
                proof {
                    reveal_strlit("data-pdf-hash=\"");
                    lemma_find_from(s@, "data-pdf-hash=\""@, p as int);
                }
                push_range(&mut result, &s, p, pos);
                result.append("id=\"tikz-grp-");
                crate::text::push_decimal(&mut result, count);
                result.append("\" ");
                result.append("data-pdf-hash=\"");
                p = pos + 15;
                count = count + 1;
                assert(tikz_anchored_from(s@, 0, 0) == result@ + tikz_anchored_from(s@, p as int, count as nat));
            },
        }
    }
    result
}

// ───────────────────────── PDF preview containers ─────────────────────────

/// Opening of a preview container, up to the PDF path.
pub const CONTAINER_START: &'static str = "<div class=\"pdfviewer-container\" data-pdf-src=\"";

/// The file name element inside a preview container.
pub const FILENAME_MARKER: &'static str = "<div class=\"ppv-filename\">";

/// Where the `<div>` open at depth `depth` when the scan reaches `i` is
/// closed: the position after the `</div>` that brings the depth of nested
/// `<div` elements back to zero; none when the text ends first.
pub open spec fn div_end(s: Seq<char>, i: int, depth: nat) -> Option<int>
    decreases s.len() - i,
{
    if i < 0 || i >= s.len() {
        None
    } else if match_at(s, "</div>"@, i) {
        proof {
            reveal_strlit("</div>");
        }
        if depth <= 1 {
            Some(i + 6)
        } else {
            div_end(s, i + 6, (depth - 1) as nat)
        }
    } else if match_at(s, "<div"@, i) {
        proof {
            reveal_strlit("<div");
        }
        div_end(s, i + 4, depth + 1)
    } else {
        div_end(s, i + 1, depth)
    }
}

pub proof fn lemma_div_end(s: Seq<char>, i: int, depth: nat)
    requires
        0 <= i,
    ensures
        div_end(s, i, depth) matches Some(e) ==> i < e <= s.len(),
    decreases s.len() - i,
{
    reveal_strlit("</div>");
    reveal_strlit("<div");
    if 0 <= i < s.len() {
        if match_at(s, "</div>"@, i) {
            if depth > 1 {
                lemma_div_end(s, i + 6, (depth - 1) as nat);
            }
        } else if match_at(s, "<div"@, i) {
            lemma_div_end(s, i + 4, depth + 1);
        } else {
            lemma_div_end(s, i + 1, depth);
        }
    }
}

/// Reading a preview container whose path starts at `a`: the PDF path, the
/// file name, and where the container ends (after the `</div>` that closes
/// it); none when it is malformed.
pub open spec fn container_parts(s: Seq<char>, a: int) -> Option<(Seq<char>, Seq<char>, int)> {
    match find_from(s, seq!['"'], a) {
        None => None,
        Some(qe) => match find_from(s, FILENAME_MARKER@, qe) {
            None => None,
            Some(fp) => {
                let b = fp + FILENAME_MARKER@.len();
                match find_from(s, "</div>"@, b) {
                    None => None,
                    Some(fe) => match div_end(s, a, 1) {
                        Some(e) => if fe < e {
                            Some((s.subrange(a, qe), s.subrange(b, fe), e))
                        } else {
                            None
                        },
                        None => None,
                    },
                }
            },
        },
    }
}

pub proof fn lemma_container_parts(s: Seq<char>, a: int)
    requires
        0 <= a <= s.len(),
    ensures
        container_parts(s, a) matches Some((src, name, next)) ==> a < next <= s.len(),
{
    reveal_strlit("<div class=\"ppv-filename\">");
    reveal_strlit("</div>");
    lemma_find_from(s, seq!['"'], a);
    lemma_div_end(s, a, 1);
    if let Some(qe) = find_from(s, seq!['"'], a) {
        lemma_find_from(s, FILENAME_MARKER@, qe);
        if let Some(fp) = find_from(s, FILENAME_MARKER@, qe) {
            let b = fp + FILENAME_MARKER@.len();
            lemma_find_from(s, "</div>"@, b);
        }
    }
}

/// From position `p` on, every well-formed preview container replaced by
/// `<a href="{path}">📄 {file name}</a>`; a malformed one keeps its opening
/// and the scan goes on after it.
pub open spec fn containers_replaced_from(s: Seq<char>, p: int) -> Seq<char>
    decreases s.len() + 1 - p,
{
    if p < 0 || p > s.len() {
        seq![]
    } else {
        match find_from(s, CONTAINER_START@, p) {
            None => s.subrange(p, s.len() as int),
            Some(pos) => {
                proof {
                    reveal_strlit("<div class=\"pdfviewer-container\" data-pdf-src=\"");
                    lemma_find_from(s, CONTAINER_START@, p);
                    lemma_container_parts(s, pos + CONTAINER_START@.len());
                }
                let a = pos + CONTAINER_START@.len();
                match container_parts(s, a) {
                    Some((src, name, next)) => s.subrange(p, pos) + "<a href=\""@ + src + "\">📄 "@ + name
                        + "</a>"@ + containers_replaced_from(s, next),
                    None => s.subrange(p, pos) + CONTAINER_START@ + containers_replaced_from(s, a),
                }
            },
        }
    }
}

/// Replaces the interactive PDF previews (which cannot work inside a PDF) by
/// plain links to the PDF files.
pub fn replace_pdf_containers(html: &str) -> (r: String)
    ensures
        r@ == containers_replaced_from(html@, 0),
{
    proof {
        reveal_strlit("<div class=\"pdfviewer-container\" data-pdf-src=\"");
        reveal_strlit("<div class=\"ppv-filename\">");
    }
    let s = to_chars(html);
    let mut result = String::new();
    let mut p: usize = 0;
    while p <= s.len()
        invariant
            p <= s.len(),
            s@ == html@,
            containers_replaced_from(s@, 0) == result@ + containers_replaced_from(s@, p as int),
        decreases s.len() + 1 - p,
    {
        match find_str_from(&s, CONTAINER_START, p) {
            None => {
                push_range(&mut result, &s, p, s.len());
                return result;
            },
            Some(pos) => {
                proof {
                    reveal_strlit("<div class=\"pdfviewer-container\" data-pdf-src=\"");
                    lemma_find_from(s@, CONTAINER_START@, p as int);
                    lemma_container_parts(s@, pos + 47);
                }
                push_range(&mut result, &s, p, pos);
                let a = pos + 47;
                match container_parts_exec(&s, a) {
                    Some((qe, b, fe, next)) => {
                        result.append("<a href=\"");
                        push_range(&mut result, &s, a, qe);
                        result.append("\">📄 ");
                        push_range(&mut result, &s, b, fe);
                        result.append("</a>");
                        p = next;
                    },
                    None => {
                        result.append(CONTAINER_START);
                        p = a;
                    },
                }
            },
        }
    }
    result
}

/// `container_parts`, computed: the positions `(quote, name start, name end, next)`.
fn container_parts_exec(s: &Vec<char>, a: usize) -> (r: Option<(usize, usize, usize, usize)>)
    requires
        a <= s.len(),
    ensures
        match r {
            Some((qe, b, fe, next)) => a <= qe <= s.len() && b <= fe <= s.len() && container_parts(s@, a as int)
                == Some((s@.subrange(a as int, qe as int), s@.subrange(b as int, fe as int), next as int)),
            None => container_parts(s@, a as int) is None,
        },
{
    proof {
        reveal_strlit("<div class=\"ppv-filename\">");
        reveal_strlit("</div>");
    }
    let qe = match find_char_from(s, '"', a) {
        None => return None,
        Some(q) => q,
    };
    proof {
        lemma_find_from(s@, seq!['"'], a as int);
    }
    let fp = match find_str_from(s, FILENAME_MARKER, qe) {
        None => return None,
        Some(f) => f,
    };
    proof {
        lemma_find_from(s@, FILENAME_MARKER@, qe as int);
    }
    let b = fp + 26;
    let fe = match find_str_from(s, "</div>", b) {
        None => return None,
        Some(f) => f,
    };
    proof {
        lemma_find_from(s@, "</div>"@, b as int);
    }
    proof {
        lemma_div_end(s@, a as int, 1);
    }
    match div_end_exec(s, a, 1) {
        Some(e) => if fe < e {
            Some((qe, b, fe, e))
        } else {
            None
        },
        None => None,
    }
}

/// Computes `div_end`.
fn div_end_exec(s: &Vec<char>, i: usize, depth: usize) -> (r: Option<usize>)
    requires
        i <= s.len(),
        1 <= depth <= i + 1,
    ensures
        opt_int(r) == div_end(s@, i as int, depth as nat),
{
    proof {
        reveal_strlit("</div>");
        reveal_strlit("<div");
    }
    let mut k = i;
    let mut d = depth;
    while k < s.len()
        invariant
            i <= k <= s.len(),
            1 <= d <= k + 1,
            div_end(s@, i as int, depth as nat) == div_end(s@, k as int, d as nat),
        decreases s.len() - k,
    {
        proof {
            reveal_strlit("</div>");
            reveal_strlit("<div");
        }
        if starts_with_at(s, k, "</div>") {
            if d <= 1 {
                return Some(k + 6);
            }
            d = d - 1;
            k = k + 6;
        } else if starts_with_at(s, k, "<div") {
            d = d + 1;
            k = k + 4;
        } else {
            k = k + 1;
        }
    }
    None
}


// ───────────────────────── external resources ─────────────────────────

/// The tag loads something over http(s).
pub open spec fn is_external_tag(tag: Seq<char>) -> bool {
    contains(tag, "src=\"http"@) || contains(tag, "src='http"@) || contains(tag, "href=\"http"@)
        || contains(tag, "href='http"@)
}

/// What becomes of one tag: an external `<script>` is replaced by an empty
/// script; an external style sheet is dropped when it is font-awesome, kept
/// when it is KaTeX's or already has a `media`, and otherwise deferred to
/// print (`<link` → `<link media="print"`); every other tag is kept.
pub open spec fn tag_replacement(tag: Seq<char>) -> Seq<char> {
    if is_external_tag(tag) {
        if starts_with(tag, "<script "@) || starts_with(tag, "<script>"@) {
            "<script>/* CDN removed for PDF */</script>"@
        } else if starts_with(tag, "<link"@) && contains(tag, "stylesheet"@) {
            if contains(tag, "font-awesome"@) {
                "<!-- CDN font-awesome removed for PDF -->"@
            } else if contains(tag, "katex"@) {
                tag
            } else if contains(tag, "media="@) {
                tag
            } else {
                "<link media=\"print\""@ + tag.skip(5)
            }
        } else {
            tag
        }
    } else {
        tag
    }
}

/// From position `p` on, `html` with each tag (from `<` to the next `>`, or
/// to the end) replaced by its `tag_replacement`.
pub open spec fn external_removed_from(s: Seq<char>, p: int) -> Seq<char>
    decreases s.len() + 1 - p,
{
    if p < 0 || p > s.len() {
        seq![]
    } else {
        match find_from(s, seq!['<'], p) {
            None => s.subrange(p, s.len() as int),
            Some(start) => {
                proof {
                    lemma_find_from(s, seq!['<'], p);
                    lemma_find_from(s, seq!['>'], start);
                }
                let tag_end = match find_from(s, seq!['>'], start) {
                    Some(i) => i + 1,
                    None => s.len() as int,
                };
                s.subrange(p, start) + tag_replacement(s.subrange(start, tag_end))
                    + external_removed_from(s, tag_end)
            },
        }
    }
}

/// `tag_replacement`, computed.
fn replace_tag(tag: &Vec<char>, out: &mut String)
    ensures
        final(out)@ == old(out)@ + tag_replacement(tag@),
{
    proof {
        reveal_strlit("<link");
        reveal(tag_replacement);
    }
    let is_external = contains_str(tag, "src=\"http") || contains_str(tag, "src='http")
        || contains_str(tag, "href=\"http") || contains_str(tag, "href='http");
    if is_external {
        if starts_with_str(tag, "<script ") || starts_with_str(tag, "<script>") {
            out.append("<script>/* CDN removed for PDF */</script>");
        } else if starts_with_str(tag, "<link") && contains_str(tag, "stylesheet") {
            if contains_str(tag, "font-awesome") {
                out.append("<!-- CDN font-awesome removed for PDF -->");
            } else if contains_str(tag, "katex") {
                push_all(out, tag);
            } else if contains_str(tag, "media=") {
                push_all(out, tag);
            } else {
                out.append("<link media=\"print\"");
                push_range(out, tag, 5, tag.len());
                assert(tag@.subrange(5, tag@.len() as int) =~= tag@.skip(5));
            }
        } else {
            push_all(out, tag);
        }
    } else {
        push_all(out, tag);
    }
}

/// Removes the blocking external scripts (a synchronous CDN `<script>` can
/// stall page load for minutes) while keeping images and style sheets; see
/// `tag_replacement`.
#[verifier::rlimit(40)]
pub fn remove_external_resources(html: &str) -> (r: String)
    ensures
        r@ == external_removed_from(html@, 0),
{
    let s = to_chars(html);
    let mut result = String::new();
    let mut p: usize = 0;
    while p <= s.len()
        invariant
            p <= s.len(),
            s@ == html@,
            external_removed_from(s@, 0) == result@ + external_removed_from(s@, p as int),
        decreases s.len() + 1 - p,
    {
        match find_char_from(&s, '<', p) {
            None => {
                push_range(&mut result, &s, p, s.len());
                return result;
            },
            Some(start) => {
                proof {
                    lemma_find_from(s@, seq!['<'], p as int);
                    lemma_find_from(s@, seq!['>'], start as int);
                }
                push_range(&mut result, &s, p, start);
                let tag_end = match find_char_from(&s, '>', start) {
                    Some(i) => i + 1,
                    None => s.len(),
                };
                let mut tag: Vec<char> = Vec::new();
                extend_range(&mut tag, &s, start, tag_end);
                replace_tag(&tag, &mut result);
                p = tag_end;
            },
        }
    }
    result
}

// ───────────────────────── inline SVG for print ─────────────────────────

/// `extract_svg_element` would slice backwards (and panic): the first `<svg`
/// lies after the end of the last `</svg>`.
pub open spec fn svg_bounds_crossed(svg: Seq<char>) -> bool {
    match (find(svg, "<svg"@), rfind(svg, "</svg>"@)) {
        (Some(a), Some(b)) => a > b + 6,
        _ => false,
    }
}

/// Whether `extract_svg_element` would slice backwards (see
/// `svg_bounds_crossed`).
pub fn svg_bounds_cross(svg: &str) -> (r: bool)
    ensures
        r == svg_bounds_crossed(svg@),
{
    let s = to_chars(svg);
    match (find_str(&s, "<svg"), rfind_str(&s, "</svg>")) {
        (Some(a), Some(b)) => a > b && a - b > 6,
        _ => false,
    }
}

/// From the first `<svg` to the end of the last `</svg>`.
pub open spec fn svg_element(svg: Seq<char>) -> Option<Seq<char>> {
    match (find(svg, "<svg"@), rfind(svg, "</svg>"@)) {
        (Some(a), Some(b)) => Some(svg.subrange(a, b + 6)),
        _ => None,
    }
}

/// The `<svg>…</svg>` element of an SVG file, without the XML declaration
/// and the `Source` comment.
pub fn extract_svg_element(svg: &str) -> (r: Option<String>)
    requires
        !svg_bounds_crossed(svg@),
    ensures
        match r {
            Some(x) => svg_element(svg@) == Some(x@),
            None => svg_element(svg@) is None,
        },
{
    proof {
        reveal_strlit("</svg>");
    }
    let s = to_chars(svg);
    let start = match find_str(&s, "<svg") {
        None => return None,
        Some(a) => a,
    };
    let last = match rfind_str(&s, "</svg>") {
        None => return None,
        Some(b) => b,
    };
    proof {
        crate::text::lemma_rfind_before(s@, "</svg>"@, s@.len() as int + 1);
    }
    let sl = s.len();
    let end = last + 6;
    let mut r = String::new();
    push_range(&mut r, &s, start, end);
    Some(r)
}

/// The responsive width given to an inlined SVG.
pub const SVG_WIDTH_STYLE: &'static str = "width:100%;height:auto;max-width:100%";

/// The attributes of a tag (without its `>` and `/`) with the responsive
/// width merged into its `style="…"` attribute, after what it already holds,
/// or added as a `style` attribute when it has none.
pub open spec fn width_styled(body: Seq<char>) -> Seq<char> {
    match find(body, " style=\""@) {
        Some(p) => match find_from(body, seq!['"'], p + 8) {
            Some(q) => body.take(q) + seq![';'] + SVG_WIDTH_STYLE@ + body.skip(q),
            None => body + " style=\""@ + SVG_WIDTH_STYLE@ + seq!['"'],
        },
        None => body + " style=\""@ + SVG_WIDTH_STYLE@ + seq!['"'],
    }
}

/// The root `<svg …>` tag with the responsive width merged into its style
/// (see `width_styled`), a self-closing tag staying self-closing.
pub open spec fn width_style_injected(svg: Seq<char>) -> Seq<char> {
    match find(svg, "<svg"@) {
        None => svg,
        Some(open) => {
            let end = tag_close(svg, open + 4, None);
            if end < svg.len() {
                let tag = svg.subrange(open, end);
                if ends_with(tag, "/"@) {
                    svg.take(open) + width_styled(tag.drop_last()) + "/"@ + svg.skip(end)
                } else {
                    svg.take(open) + width_styled(tag) + svg.skip(end)
                }
            } else {
                svg
            }
        },
    }
}

/// Appends `width_styled(body)` to `out`.
fn push_width_styled(out: &mut String, body: &Vec<char>)
    ensures
        final(out)@ == old(out)@ + width_styled(body@),
{
    proof {
        reveal_strlit(" style=\"");
    }
    match find_str(body, " style=\"") {
        Some(p) => {
            proof {
                reveal_strlit(" style=\"");
                lemma_find_from(body@, " style=\""@, 0);
                lemma_find_from(body@, seq!['"'], p + 8);
            }
            let blen = body.len();
            assert(p + 8 <= blen);
            match find_char_from(body, '"', p + 8) {
                Some(q) => {
                    push_range(out, body, 0, q);
                    crate::text::push_char(out, ';');
                    out.append(SVG_WIDTH_STYLE);
                    push_range(out, body, q, body.len());
                    assert(body@.subrange(0, q as int) =~= body@.take(q as int));
                    assert(body@.subrange(q as int, body@.len() as int) =~= body@.skip(q as int));
                    return;
                },
                None => {},
            }
        },
        None => {},
    }
    push_all(out, body);
    out.append(" style=\"");
    out.append(SVG_WIDTH_STYLE);
    crate::text::push_char(out, '"');
}

/// Injects the responsive width into the root `<svg>` tag (quote-aware scan
/// of the tag).
pub fn inject_svg_width_style(svg: &str) -> (r: String)
    ensures
        r@ == width_style_injected(svg@),
{
    proof {
        reveal_strlit("<svg");
        reveal_strlit("/");
    }
    let s = to_chars(svg);
    match find_str(&s, "<svg") {
        None => from_chars(&s),
        Some(open) => {
            proof {
                lemma_find_from(s@, "<svg"@, 0);
            }
            let end = tag_close_exec(&s, open + 4);
            if end < s.len() {
                let mut tag: Vec<char> = Vec::new();
                extend_range(&mut tag, &s, open, end);
                let mut r = String::new();
                push_range(&mut r, &s, 0, open);
                assert(s@.subrange(0, open as int) =~= s@.take(open as int));
                let self_closing = tag.len() > 0 && tag[tag.len() - 1] == '/';
                assert(self_closing == ends_with(tag@, "/"@)) by {
                    if tag@.len() >= 1 {
                        assert(tag@.skip(tag@.len() - 1) =~= seq![tag@[tag@.len() - 1]]);
                        if tag@.skip(tag@.len() - 1) =~= seq!['/'] {
                            assert(tag@.skip(tag@.len() - 1)[0] == tag@[tag@.len() - 1]);
                        }
                    }
                }
                if self_closing {
                    let mut body: Vec<char> = Vec::new();
                    extend_range(&mut body, &tag, 0, tag.len() - 1);
                    assert(tag@.subrange(0, tag@.len() - 1) =~= tag@.drop_last());
                    assert(body@ =~= tag@.drop_last());
                    push_width_styled(&mut r, &body);
                    r.append("/");
                } else {
                    push_width_styled(&mut r, &tag);
                }
                push_range(&mut r, &s, end, s.len());
                assert(s@.subrange(end as int, s@.len() as int) =~= s@.skip(end as int));
                r
            } else {
                from_chars(&s)
            }
        },
    }
}


// ───────────────────────── emoji images ─────────────────────────

/// Where the image of a flag emoji is fetched from, up to its country code.
pub const FLAG_IMG_PREFIX: &'static str = "<img src=\"https://cdn.jsdelivr.net/gh/googlefonts/noto-emoji@main/third_party/region-flags/svg/";

/// Where the image of any other emoji is fetched from, up to its code points.
pub const EMOJI_IMG_PREFIX: &'static str = "<img src=\"https://cdn.jsdelivr.net/gh/googlefonts/noto-emoji@main/svg/emoji_u";

/// The rest of an emoji image tag.
pub const EMOJI_IMG_SUFFIX: &'static str = ".svg\" alt=\"emoji\" class=\"noto-emoji\" style=\"height:1em;vertical-align:middle;\">";

/// The length of `e` in UTF-8 bytes.
pub open spec fn byte_len(e: Seq<char>) -> nat {
    encode_utf8(e).len()
}

/// The emoji `e` (not empty) starts at `i`.
pub open spec fn emoji_at(s: Seq<char>, e: Seq<char>, i: int) -> bool {
    e.len() > 0 && match_at(s, e, i)
}

/// Among `es[k..]`, the emoji that starts at `i` and is longest in UTF-8
/// bytes, the first listed among equally long ones.
pub open spec fn best_emoji(s: Seq<char>, i: int, es: Seq<Seq<char>>, k: int) -> Option<int>
    decreases es.len() - k,
{
    if k < 0 || k >= es.len() {
        None
    } else {
        let rest = best_emoji(s, i, es, k + 1);
        if emoji_at(s, es[k], i) {
            match rest {
                Some(j) => if byte_len(es[j]) > byte_len(es[k]) {
                    Some(j)
                } else {
                    Some(k)
                },
                None => Some(k),
            }
        } else {
            rest
        }
    }
}

pub proof fn lemma_best_emoji(s: Seq<char>, i: int, es: Seq<Seq<char>>, k: int)
    requires
        0 <= k,
    ensures
        match best_emoji(s, i, es, k) {
            Some(j) => k <= j < es.len() && emoji_at(s, es[j], i),
            None => true,
        },
    decreases es.len() - k,
{
    if k < es.len() {
        lemma_best_emoji(s, i, es, k + 1);
    }
}

/// The code points of a sequence in lower-case hexadecimal.
pub open spec fn hex_codes(cs: Seq<char>) -> Seq<Seq<char>> {
    cs.map_values(|c: char| hex_digits(c as u32 as nat))
}

/// The image tag that stands for an emoji: a flag by its country code, any
/// other emoji by its code points (without U+FE0F) joined by `_`.
pub open spec fn emoji_img(e: Seq<char>) -> Seq<char> {
    match country_code(e) {
        Some(cc) => FLAG_IMG_PREFIX@ + cc + EMOJI_IMG_SUFFIX@,
        None => EMOJI_IMG_PREFIX@ + join(hex_codes(without_vs16(e)), seq!['_']) + EMOJI_IMG_SUFFIX@,
    }
}

/// From position `i` on, the page with each emoji of `es` replaced by its
/// image tag: at each position the longest emoji that starts there (see
/// `best_emoji`); where none does, the character is kept.
pub open spec fn emojis_replaced_from(s: Seq<char>, i: int, es: Seq<Seq<char>>) -> Seq<char>
    decreases s.len() - i,
{
    if i < 0 || i >= s.len() {
        seq![]
    } else {
        match best_emoji(s, i, es, 0) {
            Some(j) => {
                proof {
                    lemma_best_emoji(s, i, es, 0);
                }
                emoji_img(es[j]) + emojis_replaced_from(s, i + es[j].len(), es)
            },
            None => seq![s[i]] + emojis_replaced_from(s, i + 1, es),
        }
    }
}

/// The head of the emoji list the `emojis` crate documents for `iter` (in
/// Unicode CLDR order, the first faces are 😀 😃 😄 😁 😆), and no entry
/// empty.
pub open spec fn cldr_emoji_list(es: Seq<Seq<char>>) -> bool {
    &&& es.len() >= 5
    &&& es[0] == seq!['\u{1F600}']
    &&& es[1] == seq!['\u{1F603}']
    &&& es[2] == seq!['\u{1F604}']
    &&& es[3] == seq!['\u{1F601}']
    &&& es[4] == seq!['\u{1F606}']
    &&& forall|i: int| 0 <= i < es.len() ==> (#[trigger] es[i]).len() > 0
}

/// Every emoji the `emojis` crate lists (`emojis::iter`: each emoji in its
/// default skin tone), in the crate's order. The contract states what the
/// crate documents of that order (its first five faces) and that no entry
/// is empty; the rest of the table is left unsaid.
#[verifier::external_body]
fn all_emojis() -> (r: Vec<String>)
    ensures
        cldr_emoji_list(crate::text::sviews(r@)),
{
    emojis::iter().map(|e| e.as_str().to_string()).collect()
}

fn best_emoji_exec(s: &Vec<char>, i: usize, ev: &Vec<Vec<char>>, bl: &Vec<usize>, Ghost(es): Ghost<Seq<Seq<char>>>) -> (r: Option<usize>)
    requires
        ev@.len() == es.len(),
        bl@.len() == es.len(),
        forall|k: int| 0 <= k < es.len() ==> (#[trigger] ev@[k])@ == es[k],
        forall|k: int| 0 <= k < es.len() ==> #[trigger] bl@[k] == byte_len(es[k]),
    ensures
        opt_int(r) == best_emoji(s@, i as int, es, 0),
{
    let mut cur: Option<usize> = None;
    let mut k = ev.len();
    while k > 0
        invariant
            k <= ev.len(),
            ev@.len() == es.len(),
            bl@.len() == es.len(),
            forall|m: int| 0 <= m < es.len() ==> (#[trigger] ev@[m])@ == es[m],
            forall|m: int| 0 <= m < es.len() ==> #[trigger] bl@[m] == byte_len(es[m]),
            opt_int(cur) == best_emoji(s@, i as int, es, k as int),
        decreases k,
    {
        let idx = k - 1;
        assert(ev@[idx as int]@ == es[idx as int]);
        proof {
            lemma_best_emoji(s@, i as int, es, k as int);
        }
        if ev[idx].len() > 0 && crate::text::match_at_exec(s, &ev[idx], i) {
            cur = match cur {
                Some(j) => if bl[j] > bl[idx] {
                    Some(j)
                } else {
                    Some(idx)
                },
                None => Some(idx),
            };
        }
        k = idx;
    }
    cur
}

/// Appends the image tag of an emoji.
fn push_emoji_img(out: &mut String, e: &Vec<char>)
    ensures
        final(out)@ == old(out)@ + emoji_img(e@),
{
    let es = from_chars(e);
    match regional_indicator_to_country_code(es.as_str()) {
        Some(cc) => {
            out.append(FLAG_IMG_PREFIX);
            out.append(cc.as_str());
            out.append(EMOJI_IMG_SUFFIX);
        },
        None => {
            out.append(EMOJI_IMG_PREFIX);
            let ghost start = out@;
            let mut cs: Vec<char> = Vec::new();
            let mut i: usize = 0;
            while i < e.len()
                invariant
                    i <= e.len(),
                    cs@ == without_vs16(e@.take(i as int)),
                    out@ == start + join(hex_codes(cs@), seq!['_']),
                decreases e.len() - i,
            {
                if e[i] as u32 != 0xFE0F {
                    let ghost before = cs@;
                    if cs.len() > 0 {
                        crate::text::push_char(out, '_');
                    }
                    crate::preprocessors::langtabs::push_hex(out, e[i] as u32);
                    cs.push(e[i]);
                    proof {
                        assert(hex_codes(cs@) =~= hex_codes(before).push(hex_digits(e@[i as int] as u32 as nat)));
                        crate::text::lemma_join_push(hex_codes(before), hex_digits(e@[i as int] as u32 as nat), seq!['_']);
                    }
                }
                i = i + 1;
                assert(e@.take(i as int).drop_last() =~= e@.take((i - 1) as int));
            }
            assert(e@.take(e.len() as int) =~= e@);
            out.append(EMOJI_IMG_SUFFIX);
        },
    }
}

/// Replaces the emojis of `es` in a page by their image tags (see
/// `emojis_replaced_from`).
pub fn replace_emoji_with(html: &str, emojis: &Vec<String>) -> (r: String)
    ensures
        r@ == emojis_replaced_from(html@, 0, crate::text::sviews(emojis@)),
{
    let ghost es = crate::text::sviews(emojis@);
    let s = to_chars(html);
    let mut ev: Vec<Vec<char>> = Vec::new();
    let mut bl: Vec<usize> = Vec::new();
    let mut k: usize = 0;
    while k < emojis.len()
        invariant
            k <= emojis.len(),
            es == crate::text::sviews(emojis@),
            ev@.len() == k,
            bl@.len() == k,
            forall|m: int| 0 <= m < k ==> (#[trigger] ev@[m])@ == es[m],
            forall|m: int| 0 <= m < k ==> #[trigger] bl@[m] == byte_len(es[m]),
        decreases emojis.len() - k,
    {
        let e = emojis[k].as_str();
        assert(e@ == es[k as int]);
        ev.push(to_chars(e));
        bl.push(e.as_bytes().len());
        k = k + 1;
    }
    let mut out = String::new();
    let mut i: usize = 0;
    while i < s.len()
        invariant
            i <= s.len(),
            s@ == html@,
            ev@.len() == es.len(),
            bl@.len() == es.len(),
            forall|m: int| 0 <= m < es.len() ==> (#[trigger] ev@[m])@ == es[m],
            forall|m: int| 0 <= m < es.len() ==> #[trigger] bl@[m] == byte_len(es[m]),
            emojis_replaced_from(s@, 0, es) == out@ + emojis_replaced_from(s@, i as int, es),
        decreases s.len() - i,
    {
        proof {
            lemma_best_emoji(s@, i as int, es, 0);
        }
        match best_emoji_exec(&s, i, &ev, &bl, Ghost(es)) {
            Some(j) => {
                assert(ev@[j as int]@ == es[j as int]);
                push_emoji_img(&mut out, &ev[j]);
                i = i + ev[j].len();
            },
            None => {
                crate::text::push_char(&mut out, s[i]);
                i = i + 1;
            },
        }
    }
    assert(emojis_replaced_from(s@, i as int, es) == Seq::<char>::empty());
    out
}

/// Replaces every emoji of a page by the image tag of its Noto Emoji SVG
/// (see `replace_emoji_with`, with the emojis of the `emojis` crate).
pub fn replace_emoji_with_text(html: &str) -> (r: String)
    ensures
        exists|es: Seq<Seq<char>>| #[trigger] cldr_emoji_list(es) && r@ == emojis_replaced_from(html@, 0, es),
{
    let list = all_emojis();
    replace_emoji_with(html, &list)
}

// ───────────────────────── links ─────────────────────────

/// `\` becomes `/`.
pub open spec fn forward_slash(c: char) -> char {
    if c == '\\' {
        '/'
    } else {
        c
    }
}

/// The absolute form of a relative link under `base_url` (each backslash made
/// `/`); none for anchors, links with a scheme and `mailto:` links.
pub open spec fn fixed_link(href: Seq<char>, base_url: Seq<char>) -> Option<Seq<char>> {
    if starts_with(href, "#"@) || starts_with(href, "http://"@) || starts_with(href, "https://"@) {
        None
    } else if contains(href, "://"@) || starts_with(href, "mailto:"@) {
        None
    } else {
        let base = if ends_with(base_url, "/"@) {
            base_url
        } else {
            base_url.push('/')
        };
        Some(base + href.map_values(|c: char| forward_slash(c)))
    }
}

/// Makes one relative link absolute under `base_url` (see `fixed_link`).
pub fn fix_single_link(href: &str, base_url: &str) -> (r: Option<String>)
    ensures
        match r {
            Some(x) => fixed_link(href@, base_url@) == Some(x@),
            None => fixed_link(href@, base_url@) is None,
        },
{
    proof {
        reveal_strlit("/");
    }
    let h = to_chars(href);
    if starts_with_str(&h, "#") || starts_with_str(&h, "http://") || starts_with_str(&h, "https://") {
        return None;
    }
    if contains_str(&h, "://") || starts_with_str(&h, "mailto:") {
        return None;
    }
    let b = to_chars(base_url);
    let mut fixed = String::new();
    fixed.append(base_url);
    if !ends_with_str(&b, "/") {
        crate::text::push_char(&mut fixed, '/');
    }
    let mut i: usize = 0;
    let ghost start = fixed@;
    while i < h.len()
        invariant
            i <= h.len(),
            fixed@ == start + h@.take(i as int).map_values(|c: char| forward_slash(c)),
        decreases h.len() - i,
    {
        let c = h[i];
        crate::text::push_char(&mut fixed, if c == '\\' { '/' } else { c });
        i = i + 1;
        assert(h@.take(i as int).map_values(|c: char| forward_slash(c)) =~= h@.take(
            (i - 1) as int,
        ).map_values(|c: char| forward_slash(c)).push(forward_slash(h@[i - 1])));
    }
    assert(h@.take(h.len() as int) =~= h@);
    Some(fixed)
}

/// `s` without the `'/'` it ends with (`str::trim_end_matches('/')`).
pub open spec fn trailing_slashes_removed(s: Seq<char>) -> Seq<char>
    decreases s.len(),
{
    if s.len() > 0 && s.last() == '/' {
        trailing_slashes_removed(s.drop_last())
    } else {
        s
    }
}

/// The `href` attribute text of a link.
pub open spec fn href_attr(v: Seq<char>) -> Seq<char> {
    "href=\""@ + v + "\""@
}

/// For each picked link in order whose `href` `fixed_link` makes absolute:
/// the old and the new link.
pub open spec fn link_fixes(ps: Seq<PickedView>, base: Seq<char>) -> Seq<(Seq<char>, Seq<char>)>
    decreases ps.len(),
{
    if ps.len() == 0 {
        seq![]
    } else {
        let rest = link_fixes(ps.drop_first(), base);
        match ps[0].attr {
            Some(h) => match fixed_link(h, base) {
                Some(f) => seq![(h, f)] + rest,
                None => rest,
            },
            None => rest,
        }
    }
}

/// Each fix applied in turn: every `href="old"` replaced by `href="new"`.
pub open spec fn fixes_applied(t: Seq<char>, fixes: Seq<(Seq<char>, Seq<char>)>) -> Seq<char>
    decreases fixes.len(),
{
    if fixes.len() == 0 {
        t
    } else {
        fixes_applied(replaced(t, href_attr(fixes[0].0), href_attr(fixes[0].1)), fixes.drop_first())
    }
}

/// The page with its relative links (those of `<a href>` elements) made
/// absolute under `base_url` (without its trailing `'/'`); unchanged when
/// `base_url` is empty.
pub open spec fn links_fixed(html: Seq<char>, base_url: Seq<char>) -> Seq<char> {
    if base_url.len() == 0 {
        html
    } else {
        match html_picked(html, "a[href]"@, "href"@) {
            Some(ps) => fixes_applied(html, link_fixes(ps, trailing_slashes_removed(base_url))),
            None => html,
        }
    }
}

fn trim_trailing_slashes(s: &str) -> (r: String)
    ensures
        r@ == trailing_slashes_removed(s@),
{
    let v = to_chars(s);
    let mut n = v.len();
    assert(v@.take(v.len() as int) =~= v@);
    while n > 0 && v[n - 1] == '/'
        invariant
            n <= v.len(),
            trailing_slashes_removed(v@) == trailing_slashes_removed(v@.take(n as int)),
        decreases n,
    {
        assert(v@.take(n as int).drop_last() =~= v@.take(n - 1));
        n = n - 1;
    }
    let mut r = String::new();
    push_range(&mut r, &v, 0, n);
    assert(v@.subrange(0, n as int) =~= v@.take(n as int));
    r
}

fn href_text(v: &str) -> (r: String)
    ensures
        r@ == href_attr(v@),
{
    let mut r = String::new();
    r.append("href=\"");
    r.append(v);
    r.append("\"");
    r
}

/// Makes the relative links of a page absolute under `base_url` (see
/// `links_fixed`).
pub fn fix_links(html: &str, base_url: &str) -> (r: String)
    ensures
        r@ == links_fixed(html@, base_url@),
{
    let bu = to_chars(base_url);
    if bu.len() == 0 {
        return html.to_string();
    }
    let base = trim_trailing_slashes(base_url);
    let picked = match select_elements(html, "a[href]", "href") {
        Some(v) => v,
        None => {
            return html.to_string();
        },
    };
    let ghost ps = picked_views(picked@);
    let mut cur = to_chars(html);
    let mut i: usize = 0;
    assert(ps.skip(0) =~= ps);
    while i < picked.len()
        invariant
            i <= picked.len(),
            ps == picked_views(picked@),
            base@ == trailing_slashes_removed(base_url@),
            links_fixed(html@, base_url@) == fixes_applied(cur@, link_fixes(ps.skip(i as int), base@)),
        decreases picked.len() - i,
    {
        let ghost rest = ps.skip(i as int);
        assert(rest.drop_first() =~= ps.skip(i + 1));
        assert(rest[0] == picked@[i as int]@);
        let ghost cur0 = cur@;
        match &picked[i].attr {
            Some(h) => {
                match fix_single_link(h.as_str(), base.as_str()) {
                    Some(f) => {
                        let old_attr = href_text(h.as_str());
                        let new_attr = href_text(f.as_str());
                        proof {
                            reveal_strlit("href=\"");
                        }
                        cur = replace_str(&cur, old_attr.as_str(), new_attr.as_str());
                        assert(link_fixes(rest, base@) == seq![(h@, f@)] + link_fixes(rest.drop_first(), base@));
                        assert((seq![(h@, f@)] + link_fixes(rest.drop_first(), base@)).drop_first()
                            =~= link_fixes(rest.drop_first(), base@));
                    },
                    None => {
                        assert(link_fixes(rest, base@) == link_fixes(rest.drop_first(), base@));
                    },
                }
            },
            None => {
                assert(link_fixes(rest, base@) == link_fixes(rest.drop_first(), base@));
            },
        }
        i = i + 1;
    }
    assert(ps.skip(i as int).len() == 0);
    from_chars(&cur)
}

// ───────────────────────── emoji flags ─────────────────────────

/// `s` without the variation selector U+FE0F.
pub open spec fn without_vs16(s: Seq<char>) -> Seq<char>
    decreases s.len(),
{
    if s.len() == 0 {
        seq![]
    } else if (s.last() as u32) == 0xFE0F {
        without_vs16(s.drop_last())
    } else {
        without_vs16(s.drop_last()).push(s.last())
    }
}

/// A regional indicator symbol (🇦 … 🇿).
pub open spec fn is_regional_indicator(c: char) -> bool {
    0x1F1E6 <= (c as u32) <= 0x1F1FF
}

/// The letter a regional indicator stands for.
pub open spec fn indicator_letter(c: char) -> char {
    ((c as u32) - 0x1F1E6 + 65) as char
}

/// The two-letter country code of a flag emoji (a pair of regional
/// indicators, ignoring U+FE0F): 🇨🇳 → `"CN"`.
pub open spec fn country_code(e: Seq<char>) -> Option<Seq<char>> {
    let cs = without_vs16(e);
    if cs.len() == 2 && is_regional_indicator(cs[0]) && is_regional_indicator(cs[1]) {
        Some(seq![indicator_letter(cs[0]), indicator_letter(cs[1])])
    } else {
        None
    }
}

/// The country code of a flag emoji, if it is one.
pub fn regional_indicator_to_country_code(emoji_str: &str) -> (r: Option<String>)
    ensures
        match r {
            Some(x) => country_code(emoji_str@) == Some(x@),
            None => country_code(emoji_str@) is None,
        },
{
    let e = to_chars(emoji_str);
    let mut cs: Vec<char> = Vec::new();
    let mut i: usize = 0;
    while i < e.len()
        invariant
            i <= e.len(),
            cs@ == without_vs16(e@.take(i as int)),
        decreases e.len() - i,
    {
        if e[i] as u32 != 0xFE0F {
            cs.push(e[i]);
        }
        i = i + 1;
        assert(e@.take(i as int).drop_last() =~= e@.take((i - 1) as int));
    }
    assert(e@.take(e.len() as int) =~= e@);
    if cs.len() != 2 {
        return None;
    }
    let c0 = cs[0] as u32;
    let c1 = cs[1] as u32;
    if c0 >= 0x1F1E6 && c0 <= 0x1F1FF && c1 >= 0x1F1E6 && c1 <= 0x1F1FF {
        let a = ((c0 - 0x1F1E6) as u8 + 65) as char;
        let b = ((c1 - 0x1F1E6) as u8 + 65) as char;
        let mut r = String::new();
        crate::text::push_char(&mut r, a);
        crate::text::push_char(&mut r, b);
        assert(r@ =~= seq![indicator_letter(cs@[0]), indicator_letter(cs@[1])]);
        Some(r)
    } else {
        None
    }
}

// ───────────────────────── module scripts and SVG ids ─────────────────────────

/// A module script that imports from a CDN.
pub const CDN_MODULE_SCRIPT: &'static str = "(?s)<script[^>]*type=[\"']module[\"'][^>]*>.*?from\\s+[\"']https?://[^\"']+[\"'].*?</script>";

/// What a removed module script leaves.
pub const CDN_MODULE_REMOVED: &'static str = "<script>/* CDN module removed for PDF */</script>";

/// The page with each module script that imports from a CDN replaced by an
/// empty script (the PDF is printed offline).
pub open spec fn cdn_modules_removed(html: Seq<char>) -> Seq<char> {
    regex_replaced_all(CDN_MODULE_SCRIPT@, html, CDN_MODULE_REMOVED@)
}

/// Removes the module scripts that import from a CDN (see
/// `cdn_modules_removed`).
pub fn remove_cdn_module_scripts(html: &str) -> (r: String)
    ensures
        r@ == cdn_modules_removed(html@),
{
    regex_replace_all(CDN_MODULE_SCRIPT, html, CDN_MODULE_REMOVED)
}

/// An id an SVG engine gives its definitions: a letter and a number.
pub const SVG_ID_DEFINITION: &'static str = "\\bid=\"([a-z])(\\d+)\"";
/// A reference to such an id.
pub const SVG_ID_REFERENCE: &'static str = "(url\\(#|href=\"#)([a-z])(\\d+)";

/// The pieces put back together with each definition's id prefixed.
pub open spec fn ids_prefixed(pieces: Seq<(Seq<char>, Seq<Option<Seq<char>>>)>, tail: Seq<char>, prefix: Seq<char>) -> Seq<char>
    decreases pieces.len(),
{
    if pieces.len() == 0 {
        tail
    } else {
        let g = pieces.first().1;
        pieces.first().0 + "id=\""@ + prefix + group_text(g, 1) + group_text(g, 2) + "\""@ + ids_prefixed(
            pieces.drop_first(),
            tail,
            prefix,
        )
    }
}

/// The pieces put back together with each reference's id prefixed.
pub open spec fn refs_prefixed(pieces: Seq<(Seq<char>, Seq<Option<Seq<char>>>)>, tail: Seq<char>, prefix: Seq<char>) -> Seq<char>
    decreases pieces.len(),
{
    if pieces.len() == 0 {
        tail
    } else {
        let g = pieces.first().1;
        pieces.first().0 + group_text(g, 1) + prefix + group_text(g, 2) + group_text(g, 3) + refs_prefixed(
            pieces.drop_first(),
            tail,
            prefix,
        )
    }
}

/// An SVG with its ids, and the references to them, prefixed, so that two
/// SVGs inlined in one page do not share ids.
pub open spec fn svg_ids_rewritten(svg: Seq<char>, prefix: Seq<char>) -> Seq<char> {
    let (p1, t1) = regex_pieces(SVG_ID_DEFINITION@, svg);
    let s1 = ids_prefixed(p1, t1, prefix);
    let (p2, t2) = regex_pieces(SVG_ID_REFERENCE@, s1);
    refs_prefixed(p2, t2, prefix)
}

/// Appends the text of capture group `i`.
fn push_group_text(out: &mut String, g: &Vec<Option<String>>, i: usize)
    ensures
        final(out)@ == old(out)@ + group_text(groups_view(g@), i as int),
{
    if i < g.len() {
        match &g[i] {
            Some(t) => out.append(t.as_str()),
            None => {},
        }
    }
}

/// Prefixes the ids of an SVG and the references to them (see
/// `svg_ids_rewritten`).
pub fn rewrite_svg_ids(svg: &str, prefix: &str) -> (r: String)
    ensures
        r@ == svg_ids_rewritten(svg@, prefix@),
{
    let (p1, t1) = regex_split(SVG_ID_DEFINITION, svg);
    let ghost pv1 = pieces_view(p1@);
    let mut s1 = String::new();
    let mut i: usize = 0;
    assert(pv1.skip(0) =~= pv1);
    while i < p1.len()
        invariant
            i <= p1.len(),
            pv1 == pieces_view(p1@),
            ids_prefixed(pv1, t1@, prefix@) == s1@ + ids_prefixed(pv1.skip(i as int), t1@, prefix@),
        decreases p1.len() - i,
    {
        s1.append(p1[i].0.as_str());
        s1.append("id=\"");
        s1.append(prefix);
        push_group_text(&mut s1, &p1[i].1, 1);
        push_group_text(&mut s1, &p1[i].1, 2);
        s1.append("\"");
        assert(pv1.skip(i as int).drop_first() =~= pv1.skip(i + 1));
        i = i + 1;
    }
    s1.append(t1.as_str());
    let (p2, t2) = regex_split(SVG_ID_REFERENCE, s1.as_str());
    let ghost pv2 = pieces_view(p2@);
    let mut out = String::new();
    let mut k: usize = 0;
    assert(pv2.skip(0) =~= pv2);
    while k < p2.len()
        invariant
            k <= p2.len(),
            pv2 == pieces_view(p2@),
            refs_prefixed(pv2, t2@, prefix@) == out@ + refs_prefixed(pv2.skip(k as int), t2@, prefix@),
        decreases p2.len() - k,
    {
        out.append(p2[k].0.as_str());
        push_group_text(&mut out, &p2[k].1, 1);
        out.append(prefix);
        push_group_text(&mut out, &p2[k].1, 2);
        push_group_text(&mut out, &p2[k].1, 3);
        assert(pv2.skip(k as int).drop_first() =~= pv2.skip(k + 1));
        k = k + 1;
    }
    out.append(t2.as_str());
    out
}


// ───────────────────────── SVG images inlined ─────────────────────────

/// An `<img>` whose `src` ends in the name of an SVG file, the name captured.
pub const SVG_IMG: &'static str = "<img[^>]*src=\"[^\"]*/([^\"/]+\\.svg)\"[^>]*>";

/// `s` without the `.svg` it ends with, as often as it does
/// (`str::trim_end_matches(".svg")`).
pub open spec fn svg_suffix_removed(s: Seq<char>) -> Seq<char>
    decreases s.len(),
{
    if s.len() >= 4 && ends_with(s, ".svg"@) {
        svg_suffix_removed(s.take(s.len() - 4))
    } else {
        s
    }
}

/// The names of the SVG files the page's images reference, in order.
pub open spec fn svg_image_names_of(html: Seq<char>) -> Seq<Seq<char>> {
    regex_pieces(SVG_IMG@, html).0.map_values(|p: (Seq<char>, Seq<Option<Seq<char>>>)| group_text(p.1, 1))
}

/// The names of the SVG files the images of a page reference (see
/// `svg_image_names_of`).
pub fn svg_image_names(html: &str) -> (r: Vec<String>)
    ensures
        crate::text::sviews(r@) == svg_image_names_of(html@),
{
    let (pieces, _tail) = regex_split(SVG_IMG, html);
    let ghost pv = pieces_view(pieces@);
    let ghost names = pv.map_values(|p: (Seq<char>, Seq<Option<Seq<char>>>)| group_text(p.1, 1));
    let mut r: Vec<String> = Vec::new();
    let mut i: usize = 0;
    while i < pieces.len()
        invariant
            i <= pieces.len(),
            pv == pieces_view(pieces@),
            names == pv.map_values(|p: (Seq<char>, Seq<Option<Seq<char>>>)| group_text(p.1, 1)),
            crate::text::sviews(r@) =~= names.take(i as int),
        decreases pieces.len() - i,
    {
        let mut name = String::new();
        push_group_text(&mut name, &pieces[i].1, 1);
        assert(name@ == names[i as int]);
        let ghost before = crate::text::sviews(r@);
        r.push(name);
        assert(names.take(i + 1) =~= names.take(i as int).push(names[i as int]));
        assert(crate::text::sviews(r@) =~= before.push(names[i as int]));
        i = i + 1;
    }
    assert(names.take(i as int) =~= names);
    r
}

/// The file read for the `k`-th image, if it could be read.
pub open spec fn file_at(files: Seq<Option<Seq<char>>>, k: int) -> Option<Seq<char>> {
    if 0 <= k < files.len() {
        files[k]
    } else {
        None
    }
}

/// What stands for one image: the SVG element of its file, its ids
/// prefixed with the file's name (without `.svg`) and its width made
/// responsive, in a centred `<div>`; the image tag itself when the file
/// could not be read or holds no SVG element.
pub open spec fn inlined_image(g: Seq<Option<Seq<char>>>, file: Option<Seq<char>>) -> Seq<char> {
    match file {
        Some(svg) => match svg_element(svg) {
            Some(e) => "<div style=\"text-align:center;margin:8px 0;\">"@ + width_style_injected(
                svg_ids_rewritten(e, svg_suffix_removed(group_text(g, 1))),
            ) + "</div>"@,
            None => group_text(g, 0),
        },
        None => group_text(g, 0),
    }
}

/// The pieces from the `k`-th on put back together with each image
/// replaced by what stands for it.
pub open spec fn images_inlined_from(
    pieces: Seq<(Seq<char>, Seq<Option<Seq<char>>>)>,
    tail: Seq<char>,
    files: Seq<Option<Seq<char>>>,
    k: int,
) -> Seq<char>
    decreases pieces.len() - k,
{
    if k < 0 || k >= pieces.len() {
        tail
    } else {
        pieces[k].0 + inlined_image(pieces[k].1, file_at(files, k)) + images_inlined_from(pieces, tail, files, k + 1)
    }
}

/// The page with its SVG images inlined, the `k`-th image from `files[k]`
/// (the text of the file its `src` names under the book's `src/images/`,
/// or none when it could not be read).
pub open spec fn svg_images_inlined(html: Seq<char>, files: Seq<Option<Seq<char>>>) -> Seq<char> {
    let (p, t) = regex_pieces(SVG_IMG@, html);
    images_inlined_from(p, t, files, 0)
}

fn ends_with_svg(v: &Vec<char>, n: usize) -> (b: bool)
    requires
        n <= v.len(),
    ensures
        b == (n >= 4 && ends_with(v@.take(n as int), ".svg"@)),
{
    proof {
        reveal_strlit(".svg");
    }
    let b = n >= 4 && v[n - 4] == '.' && v[n - 3] == 's' && v[n - 2] == 'v' && v[n - 1] == 'g';
    proof {
        if n >= 4 {
            let t = v@.take(n as int);
            let e = t.skip(t.len() - 4);
            assert(e[0] == v@[n - 4] && e[1] == v@[n - 3] && e[2] == v@[n - 2] && e[3] == v@[n - 1]);
            if b {
                assert(e =~= ".svg"@);
            }
        }
    }
    b
}

fn trim_svg_suffix(s: &str) -> (r: String)
    ensures
        r@ == svg_suffix_removed(s@),
{
    let v = to_chars(s);
    let mut n = v.len();
    assert(v@.take(v.len() as int) =~= v@);
    while ends_with_svg(&v, n)
        invariant
            n <= v.len(),
            svg_suffix_removed(v@) == svg_suffix_removed(v@.take(n as int)),
        decreases n,
    {
        assert(v@.take(n as int).take(n - 4) =~= v@.take(n - 4));
        n = n - 4;
    }
    let mut r = String::new();
    push_range(&mut r, &v, 0, n);
    assert(v@.subrange(0, n as int) =~= v@.take(n as int));
    r
}

/// Inlines the SVG images of a page (see `svg_images_inlined`); `files`
/// follows the order of `svg_image_names`.
pub fn inline_svg_images(html: &str, files: &Vec<Option<String>>) -> (r: String)
    requires
        forall|k: int| 0 <= k < files@.len() ==> match #[trigger] files@[k] {
            Some(svg) => !svg_bounds_crossed(svg@),
            None => true,
        },
    ensures
        r@ == svg_images_inlined(html@, files@.map_values(|o: Option<String>| crate::pattern::opt_string_view(o))),
{
    let ghost fv = files@.map_values(|o: Option<String>| crate::pattern::opt_string_view(o));
    let (pieces, tail) = regex_split(SVG_IMG, html);
    let ghost pv = pieces_view(pieces@);
    let mut out = String::new();
    let mut k: usize = 0;
    while k < pieces.len()
        invariant
            k <= pieces.len(),
            pv == pieces_view(pieces@),
            fv == files@.map_values(|o: Option<String>| crate::pattern::opt_string_view(o)),
            forall|m: int| 0 <= m < files@.len() ==> match #[trigger] files@[m] {
                Some(svg) => !svg_bounds_crossed(svg@),
                None => true,
            },
            images_inlined_from(pv, tail@, fv, 0) == out@ + images_inlined_from(pv, tail@, fv, k as int),
        decreases pieces.len() - k,
    {
        let ghost out0 = out@;
        out.append(pieces[k].0.as_str());
        let ghost g = pv[k as int].1;
        let mut done = false;
        if k < files.len() {
            match &files[k] {
                Some(svg) => {
                    assert(files@[k as int] == Some(*svg));
                    match extract_svg_element(svg.as_str()) {
                        Some(e) => {
                            let mut name = String::new();
                            push_group_text(&mut name, &pieces[k].1, 1);
                            let prefix = trim_svg_suffix(name.as_str());
                            let re = rewrite_svg_ids(e.as_str(), prefix.as_str());
                            let styled = inject_svg_width_style(re.as_str());
                            out.append("<div style=\"text-align:center;margin:8px 0;\">");
                            out.append(styled.as_str());
                            out.append("</div>");
                            done = true;
                        },
                        None => {},
                    }
                },
                None => {},
            }
        }
        if !done {
            push_group_text(&mut out, &pieces[k].1, 0);
        }
        assert(out@ =~= out0 + pv[k as int].0 + inlined_image(g, file_at(fv, k as int)));
        k = k + 1;
    }
    out.append(tail.as_str());
    out
}


// ───────────────────────── the page pipeline ─────────────────────────

/// The first steps of preparing a page for print: relative links made
/// absolute under `static_site_url` (when it is set), chapter anchors for
/// the table of contents, the print CSS and the CJK font CSS.
pub open spec fn page_head_prepared(html: Seq<char>, chapter_paths: Seq<Seq<char>>, static_site_url: Seq<char>) -> Seq<char> {
    let linked = if static_site_url.len() == 0 {
        html
    } else {
        links_fixed(html, static_site_url)
    };
    font_css_injected(print_css_injected(toc_fixed(linked, chapter_paths)))
}

/// The first steps of the page pipeline (see `page_head_prepared`); the
/// CSS header and footer, sized in inches, are added by the caller after it.
pub fn preprocess_head(html: &str, chapter_paths: &[String], static_site_url: &str) -> (r: String)
    ensures
        r@ == page_head_prepared(html@, views(chapter_paths@), static_site_url@),
{
    let u = to_chars(static_site_url);
    let linked = if u.len() == 0 {
        html.to_string()
    } else {
        fix_links(html, static_site_url)
    };
    let t = inject_toc_fix(linked.as_str(), chapter_paths);
    let p = inject_print_css(t.as_str());
    inject_font_css(p.as_str())
}

/// The `@font-face` style that makes an emoji font file (under the book's
/// `theme/fonts/`) the page's emoji font.
pub open spec fn emoji_font_css(name: Seq<char>) -> Seq<char> {
    "<style>@font-face { font-family: 'Emoji PDF'; font-style: normal; font-display: swap; font-weight: 400; src: url('../../theme/fonts/"@
        + name
        + "') format('woff2'); } .emoji-render { font-family: 'Emoji PDF', 'Noto Color Emoji', 'Apple Color Emoji', 'Segoe UI Emoji', sans-serif; } </style>"@
}

/// An emoji font file: a `.woff2` file with `emoji` in its name.
pub open spec fn is_emoji_font(name: Seq<char>) -> bool {
    ends_with(name, ".woff2"@) && contains(name, "emoji"@)
}

/// The emoji font of a fonts directory: the first emoji font file in name
/// order, if there is one.
pub open spec fn first_emoji_font(names: Seq<Seq<char>>, i: int) -> Option<Seq<char>>
    decreases names.len() - i,
{
    if i < 0 || i >= names.len() {
        None
    } else {
        let rest = first_emoji_font(names, i + 1);
        if is_emoji_font(names[i]) {
            match rest {
                Some(n) => if lex_lt(n, names[i]) {
                    Some(n)
                } else {
                    Some(names[i])
                },
                None => Some(names[i]),
            }
        } else {
            rest
        }
    }
}

/// Picks the emoji font among the names of the fonts directory (see
/// `first_emoji_font`).
pub fn emoji_font_file(names: &Vec<String>) -> (r: Option<String>)
    ensures
        match r {
            Some(x) => first_emoji_font(crate::text::sviews(names@), 0) == Some(x@),
            None => first_emoji_font(crate::text::sviews(names@), 0) is None,
        },
{
    let ghost ns = crate::text::sviews(names@);
    let mut best: Option<usize> = None;
    let mut k = names.len();
    while k > 0
        invariant
            k <= names.len(),
            ns == crate::text::sviews(names@),
            match best {
                Some(j) => j < names.len() && first_emoji_font(ns, k as int) == Some(ns[j as int]),
                None => first_emoji_font(ns, k as int) is None,
            },
        decreases k,
    {
        let i = k - 1;
        let v = to_chars(names[i].as_str());
        assert(v@ == ns[i as int]);
        if ends_with_str(&v, ".woff2") && contains_str(&v, "emoji") {
            best = match best {
                Some(j) => {
                    let w = to_chars(names[j].as_str());
                    if lex_lt_exec(&w, &v) {
                        Some(j)
                    } else {
                        Some(i)
                    }
                },
                None => Some(i),
            };
        }
        k = i;
    }
    match best {
        Some(j) => Some(names[j].clone()),
        None => None,
    }
}

/// The emoji font style placed before the last `</head>` (nothing when the
/// page has none).
pub open spec fn emoji_font_injected(html: Seq<char>, name: Seq<char>) -> Seq<char> {
    match rfind(html, "</head>"@) {
        Some(pos) => html.take(pos) + emoji_font_css(name) + html.skip(pos),
        None => html,
    }
}

/// The last steps of preparing a page for print: blocking CDN resources and
/// module imports removed, SVG images inlined (when their files were read:
/// `svg_files`, see `inline_svg_images`), the print script added, PDF
/// preview containers replaced by links, anchors put on diagrams, and the
/// emoji font style added (when `emoji_font` names one).
pub open spec fn page_tail_prepared(
    html: Seq<char>,
    svg_files: Option<Seq<Option<Seq<char>>>>,
    enable_emoji: bool,
    emoji_font: Option<Seq<char>>,
) -> Seq<char> {
    let a = cdn_modules_removed(external_removed_from(html, 0));
    let b = match svg_files {
        Some(f) => svg_images_inlined(a, f),
        None => a,
    };
    let c = tikz_anchored_from(
        containers_replaced_from(inserted_before(b, "</body>"@, pdf_script(enable_emoji)), 0),
        0,
        0,
    );
    match emoji_font {
        Some(n) => emoji_font_injected(c, n),
        None => c,
    }
}

/// The last steps of the page pipeline (see `page_tail_prepared`).
pub fn preprocess_tail(
    html: &str,
    svg_files: Option<&Vec<Option<String>>>,
    enable_emoji: bool,
    emoji_font: Option<&str>,
) -> (r: String)
    requires
        match svg_files {
            Some(f) => forall|k: int| 0 <= k < f@.len() ==> match #[trigger] f@[k] {
                Some(svg) => !svg_bounds_crossed(svg@),
                None => true,
            },
            None => true,
        },
    ensures
        r@ == page_tail_prepared(
            html@,
            match svg_files {
                Some(f) => Some(f@.map_values(|o: Option<String>| crate::pattern::opt_string_view(o))),
                None => None,
            },
            enable_emoji,
            match emoji_font {
                Some(n) => Some(n@),
                None => None,
            },
        ),
{
    let e = remove_external_resources(html);
    let a = remove_cdn_module_scripts(e.as_str());
    let b = match svg_files {
        Some(f) => inline_svg_images(a.as_str(), f),
        None => a,
    };
    let j = inject_js(b.as_str(), enable_emoji);
    let p = replace_pdf_containers(j.as_str());
    let c = inject_tikz_anchors(p.as_str());
    match emoji_font {
        Some(n) => {
            let v = to_chars(c.as_str());
            proof {
                crate::text::lemma_rfind_before(v@, "</head>"@, v@.len() as int + 1);
            }
            match rfind_str(&v, "</head>") {
                Some(pos) => {
                    let mut r = String::new();
                    push_range(&mut r, &v, 0, pos);
                    r.append("<style>@font-face { font-family: 'Emoji PDF'; font-style: normal; font-display: swap; font-weight: 400; src: url('../../theme/fonts/");
                    r.append(n);
                    r.append("') format('woff2'); } .emoji-render { font-family: 'Emoji PDF', 'Noto Color Emoji', 'Apple Color Emoji', 'Segoe UI Emoji', sans-serif; } </style>");
                    push_range(&mut r, &v, pos, v.len());
                    assert(v@.subrange(0, pos as int) =~= v@.take(pos as int));
                    assert(v@.subrange(pos as int, v@.len() as int) =~= v@.skip(pos as int));
                    r
                },
                None => c,
            }
        },
        None => c,
    }
}

} // verus!
