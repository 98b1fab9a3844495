//! Helpers shared by the diagram plugins: XML escaping, inline SVG and the
//! "source ↔ image" toggle container.
use vstd::prelude::*;
use crate::text::{
    drop_blank_lines, drop_blank_lines_exec, ends_with, find, find_char_from, find_from,
    find_str, from_chars, is_ascii_ws, is_ascii_ws_exec, is_blank, is_blank_range, lemma_find_from,
    lemma_skip_ws, match_at, opt_int, push_all, push_char, push_range, skip_ws, skip_ws_exec,
    to_chars, trim_start, contains, starts_with_at, find_str_from,
};

verus! {

broadcast use vstd::string::group_string_axioms;

/// Responsive style of inline SVG: full container width on screen, natural
/// size (but never wider than the page) in print; the text layer is pinned to
/// transparent serif.
pub const DIAGRAM_SVG_CSS: &'static str = "<style>.diagram-inline-svg{max-width:100%;height:auto}@media screen{.diagram-inline-svg{width:100%}}@media print{.diagram-inline-svg{width:auto;max-width:100%}}.diagram-inline-svg text{fill:transparent!important;font-family:serif!important}</style>";

/// Inline style of the `<text>` layer of generated SVG.
pub const SVG_TEXT_LAYER_STYLE: &'static str =
    "style=\"fill:transparent!important;font-family:serif!important\"";

/// Style of the diagram container and its toggle button.
pub const DIAGRAM_TOGGLE_CSS: &'static str = "\
.diagram-box{position:relative;text-align:center;margin:0.6em auto;}\
.diagram-box .diagram-toggle-btn{position:absolute;top:8px;left:8px;z-index:6;\
opacity:0;visibility:hidden;transform:translateY(-3px);\
transition:opacity .15s ease,visibility .15s ease,transform .15s ease;\
padding:0;line-height:0;cursor:pointer;font-family:inherit;\
border:1px solid rgba(127,127,127,.4);border-radius:4px;\
width:26px;height:26px;display:flex;align-items:center;justify-content:center;\
background:rgba(255,255,255,.9);color:#444;box-shadow:0 1px 2px rgba(0,0,0,.08);}\
.diagram-box .diagram-toggle-btn svg{display:block;width:16px;height:16px;}\
.diagram-box:hover .diagram-toggle-btn,.diagram-box .diagram-toggle-btn:focus-visible{\
opacity:1;visibility:visible;transform:translateY(0);}\
.diagram-box .diagram-toggle-btn::after{content:attr(data-tooltip);\
position:absolute;bottom:calc(100% + 8px);left:50%;transform:translateX(-50%);\
white-space:nowrap;background:#333;color:#fff;padding:3px 8px;border-radius:4px;\
font-size:12px;line-height:1.4;opacity:0;visibility:hidden;\
transition:opacity .15s ease,visibility .15s ease;pointer-events:none;}\
.diagram-box .diagram-toggle-btn:hover::after,.diagram-box .diagram-toggle-btn:focus-visible::after{\
opacity:1;visibility:visible;}\
.diagram-box .diagram-toggle-source{text-align:left;max-height:420px;overflow:auto;\
margin:0;background:#fff;border:1px solid rgba(127,127,127,.12);border-radius:6px;\
padding:10px 12px;box-shadow:0 1px 3px rgba(0,0,0,.06);box-sizing:border-box;}\
.diagram-box .diagram-toggle-source code{white-space:pre-wrap;font-size:13px;}\
";

/// The "eye" icon of the toggle button (Feather icon, MIT).
pub const DIAGRAM_TOGGLE_EYE_SVG: &'static str = "<svg viewBox=\"0 0 24 24\" fill=\"none\" \
stroke=\"currentColor\" stroke-width=\"2\" stroke-linecap=\"round\" \
stroke-linejoin=\"round\" aria-hidden=\"true\"><path d=\"M1 12s4-8 11-8 11 8 11 \
8-4 8-11 8-11-8-11-8z\"/><circle cx=\"12\" cy=\"12\" r=\"3\"/></svg>";

/// Opening of the toggle container, up to the icon.
pub const TOGGLE_OPEN: &'static str = "<div class=\"diagram-box\"><style>";

/// From the end of the style to the icon.
pub const TOGGLE_BUTTON: &'static str = "</style>\
<button type=\"button\" class=\"diagram-toggle-btn\" data-tooltip=\"View source\" title=\"View source\" aria-label=\"View source\" \
onclick=\"var p=this.parentNode,q=p.querySelector('.diagram-toggle-source'),i=p.querySelector('.diagram-toggle-image');var s=q.hidden;i.hidden=s;q.hidden=!s;var t=s?'Show image':'View source';this.title=t;this.setAttribute('aria-label',t);this.setAttribute('data-tooltip',t)\">";

/// From the icon to the image.
pub const TOGGLE_IMAGE: &'static str = "</button><div class=\"diagram-toggle-image\">";

/// From the image to the source.
pub const TOGGLE_SOURCE: &'static str = "</div><pre class=\"diagram-toggle-source\" hidden><code>";

/// Closing of the container.
pub const TOGGLE_CLOSE: &'static str = "</code></pre></div>";

// ───────────────────────── XML escaping ─────────────────────────

/// The characters XML 1.0 allows: `#x9 | #xA | #xD | [#x20-#xD7FF] |
/// [#xE000-#xFFFD] | [#x10000-#x10FFFF]`.
pub open spec fn valid_xml_char(c: char) -> bool {
    let u = c as u32;
    u == 9 || u == 10 || u == 13 || (0x20 <= u <= 0xD7FF) || (0xE000 <= u <= 0xFFFD) || (0x10000
        <= u <= 0x10FFFF)
}

/// Whether `c` may appear in an XML document.
pub fn is_valid_xml_char(c: char) -> (b: bool)
    ensures
        b == valid_xml_char(c),
{
    let u = c as u32;
    u == 9 || u == 10 || u == 13 || (0x20 <= u && u <= 0xD7FF) || (0xE000 <= u && u <= 0xFFFD) || (
    0x10000 <= u && u <= 0x10FFFF)
}

/// The escape of one character: the five markup characters become entities,
/// a character XML forbids becomes U+FFFD, any other stays.
pub open spec fn escape_char(c: char) -> Seq<char> {
    if c == '&' {
        "&amp;"@
    } else if c == '<' {
        "&lt;"@
    } else if c == '>' {
        "&gt;"@
    } else if c == '"' {
        "&quot;"@
    } else if c == '\'' {
        "&apos;"@
    } else if valid_xml_char(c) {
        seq![c]
    } else {
        seq!['\u{FFFD}']
    }
}

/// `s` with every character replaced by its escape.
pub open spec fn escaped_xml(s: Seq<char>) -> Seq<char>
    decreases s.len(),
{
    if s.len() == 0 {
        seq![]
    } else {
        escaped_xml(s.drop_last()) + escape_char(s.last())
    }
}

/// XML escape of a character sequence.
pub fn escape_xml_chars(cs: &Vec<char>) -> (out: String)
    ensures
        out@ == escaped_xml(cs@),
{
    let mut out = String::new();
    let mut i: usize = 0;
    while i < cs.len()
        invariant
            i <= cs.len(),
            out@ == escaped_xml(cs@.take(i as int)),
        decreases cs.len() - i,
    {
        let c = cs[i];
        if c == '&' {
            out.append("&amp;");
        } else if c == '<' {
            out.append("&lt;");
        } else if c == '>' {
            out.append("&gt;");
        } else if c == '"' {
            out.append("&quot;");
        } else if c == '\'' {
            out.append("&apos;");
        } else if is_valid_xml_char(c) {
            push_char(&mut out, c);
        } else {
            push_char(&mut out, '\u{FFFD}');
        }
        assert(cs@.take(i + 1).drop_last() =~= cs@.take(i as int));
        i = i + 1;
    }
    assert(cs@.take(cs.len() as int) =~= cs@);
    out
}

/// XML escape, for embedding Unicode text in SVG/HTML: the markup characters
/// become entities and characters XML forbids become U+FFFD (replaced, not
/// dropped, so that the character count is kept).
pub fn escape_xml(s: &str) -> (out: String)
    ensures
        out@ == escaped_xml(s@),
{
    let cs = to_chars(s);
    escape_xml_chars(&cs)
}

/// A character that can stand in escaped text: allowed by XML and not one
/// of `<`, `>`, `"`, `'`.
pub open spec fn safe_char(c: char) -> bool {
    valid_xml_char(c) && c != '<' && c != '>' && c != '"' && c != '\''
}

/// Whatever the text, its escape holds only characters XML allows, and no
/// `<`, `>` or quote of its own: markup in the text cannot open a tag or
/// close an attribute.
pub proof fn law_escape_output_is_safe(s: Seq<char>)
    ensures
        forall|i: int| 0 <= i < escaped_xml(s).len() ==> safe_char(#[trigger] escaped_xml(s)[i]),
    decreases s.len(),
{
    if s.len() > 0 {
        law_escape_output_is_safe(s.drop_last());
        reveal_strlit("&amp;");
        reveal_strlit("&lt;");
        reveal_strlit("&gt;");
        reveal_strlit("&quot;");
        reveal_strlit("&apos;");
        let a = escaped_xml(s.drop_last());
        let b = escape_char(s.last());
        assert(forall|j: int| 0 <= j < b.len() ==> safe_char(#[trigger] b[j]));
        assert forall|i: int| 0 <= i < escaped_xml(s).len() implies safe_char(#[trigger] escaped_xml(s)[i]) by {
            assert(escaped_xml(s) == a + b);
            if i < a.len() {
                assert(escaped_xml(s)[i] == a[i]);
            } else {
                assert(escaped_xml(s)[i] == b[i - a.len()]);
            }
        }
    }
}

/// Escaping keeps a text without markup characters character for character,
/// except that each character XML forbids becomes U+FFFD.
pub proof fn law_escape_keeps_plain_text(s: Seq<char>)
    requires
        forall|i: int|
            0 <= i < s.len() ==> #[trigger] s[i] != '&' && s[i] != '<' && s[i] != '>' && s[i]
                != '"' && s[i] != '\'',
    ensures
        escaped_xml(s).len() == s.len(),
        forall|i: int|
            0 <= i < s.len() ==> #[trigger] escaped_xml(s)[i] == if valid_xml_char(s[i]) {
                s[i]
            } else {
                '\u{FFFD}'
            },
    decreases s.len(),
{
    if s.len() > 0 {
        law_escape_keeps_plain_text(s.drop_last());
        assert forall|i: int| 0 <= i < s.len() implies #[trigger] escaped_xml(s)[i] == if valid_xml_char(
            s[i],
        ) {
            s[i]
        } else {
            '\u{FFFD}'
        } by {
            if i < s.len() - 1 {
                assert(s.drop_last()[i] == s[i]);
            }
        }
    }
}

// ───────────────────────── inline SVG ─────────────────────────

/// The leading `<!-- ... -->` comment and the whitespace around it removed
/// (`svg.trim_start()` when there is no complete leading comment).
pub open spec fn comment_stripped(svg: Seq<char>) -> Seq<char> {
    let s = trim_start(svg);
    if s.len() >= 4 && s.take(4) =~= "<!--"@ {
        let rest = s.skip(4);
        match find(rest, "-->"@) {
            Some(e) => trim_start(rest.skip(e + 3)),
            None => s,
        }
    } else {
        s
    }
}

/// Removes a leading XML comment (`<!-- Source: ... -->`).
pub fn strip_xml_comment_header(svg: &Vec<char>) -> (r: Vec<char>)
    ensures
        r@ == comment_stripped(svg@),
{
    let a = skip_ws_exec(svg, 0);
    proof {
        lemma_skip_ws(svg@, 0);
    }
    let mut s: Vec<char> = Vec::new();
    crate::text::extend_range(&mut s, svg, a, svg.len());
    assert(s@ =~= trim_start(svg@));
    if starts_with_at(&s, 0, "<!--") {
        proof {
            reveal_strlit("<!--");
            assert(s@.subrange(0, 4) =~= s@.take(4));
        }
        let mut rest: Vec<char> = Vec::new();
        crate::text::extend_range(&mut rest, &s, 4, s.len());
        assert(rest@ =~= s@.skip(4));
        match find_str(&rest, "-->") {
            Some(e) => {
                proof {
                    reveal_strlit("-->");
                    lemma_find_from(rest@, "-->"@, 0);
                }
                let b = skip_ws_exec(&rest, e + 3);
                proof {
                    lemma_skip_ws(rest@, e + 3);
                }
                let mut r: Vec<char> = Vec::new();
                crate::text::extend_range(&mut r, &rest, b, rest.len());
                proof {
                    let t = rest@.skip(e + 3);
                    assert forall|k: int| 0 <= k <= t.len() implies skip_ws(t, k) == skip_ws(
                        rest@,
                        k + e + 3,
                    ) - (e + 3) by {
                        lemma_skip_ws_shift(rest@, e + 3, k);
                    }
                    assert(r@ =~= trim_start(t));
                }
                r
            },
            None => s,
        }
    } else {
        proof {
            reveal_strlit("<!--");
            if s@.len() >= 4 {
                assert(s@.subrange(0, 4) =~= s@.take(4));
            }
        }
        s
    }
}

/// `skip_ws` on a suffix is `skip_ws` on the whole, shifted.
proof fn lemma_skip_ws_shift(s: Seq<char>, d: int, k: int)
    requires
        0 <= d <= s.len(),
        0 <= k <= s.len() - d,
    ensures
        skip_ws(s.skip(d), k) == skip_ws(s, k + d) - d,
    decreases s.len() - d - k,
{
    if k < s.len() - d {
        assert(s.skip(d)[k] == s[k + d]);
        if crate::text::is_ws(s[k + d]) {
            lemma_skip_ws_shift(s, d, k + 1);
        }
    }
}

/// Scanning from `i` in quote state `q`, the position of the `>` that closes
/// the tag (a `>` outside `"…"` or `'…'`), or `s.len()` when there is none.
pub open spec fn tag_close(s: Seq<char>, i: int, q: Option<char>) -> int
    decreases s.len() - i,
{
    if i < 0 || i >= s.len() {
        s.len() as int
    } else {
        match q {
            Some(qc) => tag_close(s, i + 1, if s[i] == qc { None } else { q }),
            None => if s[i] == '"' || s[i] == '\'' {
                tag_close(s, i + 1, Some(s[i]))
            } else if s[i] == '>' {
                i
            } else {
                tag_close(s, i + 1, None)
            },
        }
    }
}

/// `tag_close`, computed.
pub fn tag_close_exec(s: &Vec<char>, from: usize) -> (r: usize)
    requires
        from <= s.len(),
    ensures
        r as int == tag_close(s@, from as int, None),
        from <= r <= s.len(),
{
    let mut end = from;
    let mut in_quote: Option<char> = None;
    while end < s.len()
        invariant
            from <= end <= s.len(),
            tag_close(s@, from as int, None) == tag_close(s@, end as int, in_quote),
        decreases s.len() - end,
    {
        let c = s[end];
        match in_quote {
            Some(q) => {
                if c == q {
                    in_quote = None;
                }
            },
            None => {
                if c == '"' || c == '\'' {
                    in_quote = Some(c);
                } else if c == '>' {
                    proof {
                        lemma_tag_close_bounds(s@, from as int, None);
                    }
                    return end;
                }
            },
        }
        end = end + 1;
    }
    proof {
        lemma_tag_close_bounds(s@, from as int, None);
    }
    end
}

pub proof fn lemma_tag_close_bounds(s: Seq<char>, i: int, q: Option<char>)
    requires
        0 <= i <= s.len(),
    ensures
        i <= tag_close(s, i, q) <= s.len(),
    decreases s.len() - i,
{
    if i < s.len() {
        match q {
            Some(qc) => lemma_tag_close_bounds(s, i + 1, if s[i] == qc { None } else { q }),
            None => if s[i] == '"' || s[i] == '\'' {
                lemma_tag_close_bounds(s, i + 1, Some(s[i]));
            } else if s[i] != '>' {
                lemma_tag_close_bounds(s, i + 1, None);
            },
        }
    }
}

/// The quote character opening the value that follows `=` at `eq` (`'"'`
/// when the value is not quoted).
pub open spec fn value_quote(tag: Seq<char>, eq: int) -> char {
    let k = skip_ws(tag, eq + 1);
    if 0 <= k < tag.len() && (tag[k] == '"' || tag[k] == '\'') {
        tag[k]
    } else {
        '"'
    }
}

/// Searching from `from`, the first occurrence of attribute `name` inside
/// `tag` — preceded by whitespace or at the start, followed by `=` with only
/// whitespace between — with its position and the quote of its value.
pub open spec fn find_attr_from(tag: Seq<char>, name: Seq<char>, from: int) -> Option<(int, char)>
    decreases tag.len() + 1 - from,
{
    if name.len() == 0 || from < 0 || from > tag.len() {
        None
    } else {
        match find_from(tag, name, from) {
            None => None,
            Some(pos) => {
                let after = pos + name.len();
                let prev_ok = pos == 0 || is_ascii_ws(tag[pos - 1]);
                let next_ok = match find_from(tag, seq!['='], after) {
                    Some(eq) => is_blank(tag.subrange(after, eq)),
                    None => false,
                };
                if prev_ok && next_ok {
                    Some((pos, value_quote(tag, find_from(tag, seq!['='], after)->0)))
                } else {
                    proof {
                        lemma_find_from(tag, name, from);
                    }
                    find_attr_from(tag, name, after)
                }
            },
        }
    }
}

/// The first attribute `name` of `tag`, with the quote of its value.
pub open spec fn find_attr_spec(tag: Seq<char>, name: Seq<char>) -> Option<(int, char)> {
    find_attr_from(tag, name, 0)
}

/// Finds attribute `name` (e.g. `style`) in a tag: its position and the
/// quote character of its value.
pub fn find_attr(tag: &Vec<char>, name: &str) -> (r: Option<(usize, char)>)
    ensures
        match r {
            Some((p, q)) => find_attr_spec(tag@, name@) == Some((p as int, q)),
            None => find_attr_spec(tag@, name@) is None,
        },
{
    let nm = to_chars(name);
    if nm.len() == 0 {
        return None;
    }
    let mut search_from: usize = 0;
    while search_from <= tag.len()
        invariant
            nm@ == name@,
            nm@.len() > 0,
            find_attr_from(tag@, nm@, 0) == find_attr_from(tag@, nm@, search_from as int),
        decreases tag.len() + 1 - search_from,
    {
        match crate::text::find_from_exec(tag, &nm, search_from) {
            None => {
                return None;
            },
            Some(pos) => {
                proof {
                    lemma_find_from(tag@, nm@, search_from as int);
                }
                let after = pos + nm.len();
                let prev_ok = pos == 0 || is_ascii_ws_exec(tag[pos - 1]);
                let eq_rel = find_char_from(tag, '=', after);
                proof {
                    lemma_find_from(tag@, seq!['='], after as int);
                }
                let next_ok = match eq_rel {
                    Some(eq) => is_blank_range(tag, after, eq),
                    None => false,
                };
                if prev_ok && next_ok {
                    let eq = eq_rel.unwrap();
                    let k = skip_ws_exec(tag, eq + 1);
                    let quote = if k < tag.len() && (tag[k] == '"' || tag[k] == '\'') {
                        tag[k]
                    } else {
                        '"'
                    };
                    return Some((pos, quote));
                }
                search_from = after;
            },
        }
    }
    None
}

/// `head` (which ends before the closing quote `q` at `ve`) with a `;`
/// ensured before the closing quote.
pub open spec fn with_semicolon(m: Seq<char>) -> Seq<char> {
    if ends_with(m, seq![';']) {
        m
    } else {
        m.push(';')
    }
}

/// The root tag `head` with `height:auto;font-family:serif;` appended to its
/// `style` value, whose name starts at `sp` and whose value is quoted by `q`
/// (`head` unchanged when that value cannot be delimited).
pub open spec fn style_merged(head: Seq<char>, sp: int, q: char) -> Seq<char> {
    match find_from(head, seq!['='], sp + 5) {
        Some(eq) => match find_from(head, seq![q], eq + 1) {
            Some(p) => match find_from(head, seq![q], p + 1) {
                Some(ve) => with_semicolon(head.take(ve)) + "height:auto;font-family:serif;"@
                    + head.skip(ve),
                None => head,
            },
            None => head,
        },
        None => head,
    }
}

/// The root `<svg …>` tag of `svg` with the inline style
/// `height:auto;font-family:serif;` (merged into an existing `style`) and the
/// class `diagram-inline-svg` (unless it has a class already). Everything
/// before `<svg` is dropped; without `<svg` or without the tag's closing `>`
/// the text is unchanged.
pub open spec fn root_style_injected(svg: Seq<char>) -> Seq<char> {
    match find(svg, "<svg"@) {
        None => svg,
        Some(open) => {
            let end = tag_close(svg, open + 4, None);
            if end >= svg.len() {
                svg
            } else {
                let head = svg.subrange(open, end);
                let new_head = match find_attr_spec(head, "style"@) {
                    Some((sp, q)) => style_merged(head, sp, q),
                    None => head + " style=\""@ + "height:auto;font-family:serif;"@ + "\""@,
                };
                let new_head2 = if find_attr_spec(new_head, "class"@) is Some {
                    new_head
                } else {
                    new_head + " class=\"diagram-inline-svg\""@
                };
                new_head2 + svg.skip(end)
            }
        },
    }
}

/// Injects the inline style into the root `<svg>` tag (quote-aware, so a `>`
/// inside an attribute value does not end the tag).
pub fn inject_svg_root_style(svg: &Vec<char>) -> (r: Vec<char>)
    ensures
        r@ == root_style_injected(svg@),
{
    proof {
        reveal_strlit("<svg");
        reveal_strlit("style");
        reveal_strlit("class");
    }
    let open = match find_str(svg, "<svg") {
        None => {
            return svg.clone();
        },
        Some(o) => o,
    };
    proof {
        lemma_find_from(svg@, "<svg"@, 0);
    }
    let sl = svg.len();
    let end = tag_close_exec(svg, open + 4);
    if end >= svg.len() {
        return svg.clone();
    }
    let mut head: Vec<char> = Vec::new();
    crate::text::extend_range(&mut head, svg, open, end);
    let new_head: Vec<char> = match find_attr(&head, "style") {
        Some((sp, q)) => merge_style(&head, sp, q),
        None => {
            let mut h = head.clone();
            crate::text::extend_str(&mut h, " style=\"");
            crate::text::extend_str(&mut h, "height:auto;font-family:serif;");
            crate::text::extend_str(&mut h, "\"");
            h
        },
    };
    let mut new_head2 = new_head.clone();
    if find_attr(&new_head, "class").is_none() {
        crate::text::extend_str(&mut new_head2, " class=\"diagram-inline-svg\"");
    }
    crate::text::extend_range(&mut new_head2, svg, end, svg.len());
    assert(svg@.subrange(end as int, svg@.len() as int) =~= svg@.skip(end as int));
    new_head2
}

/// `style_merged`, computed.
fn merge_style(head: &Vec<char>, sp: usize, q: char) -> (r: Vec<char>)
    ensures
        r@ == style_merged(head@, sp as int, q),
{
    let hl = head.len();
    if sp >= hl || hl - sp < 5 {
        return head.clone();
    }
    match find_char_from(head, '=', sp + 5) {
        None => head.clone(),
        Some(eq) => {
            proof {
                lemma_find_from(head@, seq!['='], sp + 5);
            }
            match find_char_from(head, q, eq + 1) {
                None => head.clone(),
                Some(p) => {
                    proof {
                        lemma_find_from(head@, seq![q], eq + 1);
                    }
                    match find_char_from(head, q, p + 1) {
                        None => head.clone(),
                        Some(ve) => {
                            proof {
                                lemma_find_from(head@, seq![q], p + 1);
                            }
                            let mut m: Vec<char> = Vec::new();
                            crate::text::extend_range(&mut m, head, 0, ve);
                            assert(m@ =~= head@.take(ve as int));
                            let ends_semi = ve > 0 && head[ve - 1] == ';';
                            assert(ends_semi == ends_with(m@, seq![';'])) by {
                                if m@.len() >= 1 {
                                    assert(m@[m@.len() - 1] == head@[ve - 1]);
                                    assert(m@.skip(m@.len() - 1) =~= seq![m@[m@.len() - 1]]);
                                    if m@.skip(m@.len() - 1) =~= seq![';'] {
                                        assert(m@.skip(m@.len() - 1)[0] == m@[m@.len() - 1]);
                                    }
                                }
                            }
                            if !ends_semi {
                                m.push(';');
                            }
                            crate::text::extend_str(&mut m, "height:auto;font-family:serif;");
                            crate::text::extend_range(&mut m, head, ve, head.len());
                            assert(head@.subrange(ve as int, head@.len() as int) =~= head@.skip(
                                ve as int,
                            ));
                            m
                        },
                    }
                },
            }
        },
    }
}

/// The inline form of an engine's SVG: the leading comment stripped, blank
/// lines dropped, the root tag styled, and the responsive `<style>` in front.
/// A text without `<svg` is returned with only its leading comment stripped.
pub open spec fn inline_svg(svg: Seq<char>) -> Seq<char> {
    let s = comment_stripped(svg);
    if !contains(s, "<svg"@) {
        s
    } else {
        DIAGRAM_SVG_CSS@ + root_style_injected(drop_blank_lines(s))
    }
}

/// Turns an engine's SVG into a form that can be inlined into HTML (see
/// `inline_svg`): no blank line, so that pulldown-cmark keeps it as one HTML
/// block; responsive width on screen and natural size in print.
pub fn svg_to_inline(svg: &str) -> (r: String)
    ensures
        r@ == inline_svg(svg@),
{
    let cs = to_chars(svg);
    let s = strip_xml_comment_header(&cs);
    if !crate::text::contains_str(&s, "<svg") {
        return from_chars(&s);
    }
    let lines = drop_blank_lines_exec(&s);
    let styled = inject_svg_root_style(&lines);
    let mut out = String::new();
    out.append(DIAGRAM_SVG_CSS);
    push_all(&mut out, &styled);
    out
}

// ───────────────────────── toggle container ─────────────────────────

/// The container before blank lines are removed: style, button (with the
/// icon), image view, and the hidden source view holding `escaped_source`.
pub open spec fn toggle_raw(image: Seq<char>, escaped_source: Seq<char>) -> Seq<char> {
    TOGGLE_OPEN@ + DIAGRAM_TOGGLE_CSS@ + TOGGLE_BUTTON@ + DIAGRAM_TOGGLE_EYE_SVG@ + TOGGLE_IMAGE@
        + image + TOGGLE_SOURCE@ + escaped_source + TOGGLE_CLOSE@
}

/// The toggle container of `image_html` and `source`.
pub open spec fn toggle_html(image: Seq<char>, source: Seq<char>) -> Seq<char> {
    drop_blank_lines(toggle_raw(image, escaped_xml(drop_blank_lines(source))))
}

/// Whatever the image and the source, the toggle container holds no blank
/// line (never two newlines in a row), so that pulldown-cmark keeps it as a
/// single HTML block.
pub proof fn law_toggle_has_no_blank_line(image: Seq<char>, source: Seq<char>)
    ensures
        crate::text::no_blank_line(toggle_html(image, source)),
{
    crate::text::law_no_blank_line_left(toggle_raw(image, escaped_xml(drop_blank_lines(source))));
}

/// Wraps a rendered diagram in a centered container with a "source ↔ image"
/// toggle button: the image shows by default; the button (top left, hidden
/// until hover) switches to the XML-escaped source and back. The result holds
/// no blank line, so pulldown-cmark keeps it as a single HTML block.
pub fn diagram_toggle_html(image_html: &str, source: &str) -> (r: String)
    ensures
        r@ == toggle_html(image_html@, source@),
{
    let src = to_chars(source);
    let normalized = drop_blank_lines_exec(&src);
    let escaped = escape_xml_chars(&normalized);
    let mut raw = String::new();
    raw.append(TOGGLE_OPEN);
    raw.append(DIAGRAM_TOGGLE_CSS);
    raw.append(TOGGLE_BUTTON);
    raw.append(DIAGRAM_TOGGLE_EYE_SVG);
    raw.append(TOGGLE_IMAGE);
    raw.append(image_html);
    raw.append(TOGGLE_SOURCE);
    raw.append(escaped.as_str());
    raw.append(TOGGLE_CLOSE);
    let raw_chars = to_chars(raw.as_str());
    let out = drop_blank_lines_exec(&raw_chars);
    from_chars(&out)
}

// ───────────────────────── image paths ─────────────────────────

/// The number of components of the Unix path `p` (as `Path::components`
/// counts them): the root `/`, a leading `.` of a relative path, and every
/// non-empty segment other than `.`.
pub open spec fn path_components(p: Seq<char>) -> int {
    (if p.len() > 0 && p[0] == '/' { 1int } else { 0 }) + (if p.len() > 0 && p[0] == '.' && (
    p.len() == 1 || p[1] == '/') {
        1int
    } else {
        0
    }) + named_segments(p, 0, 0)
}

/// Counts, from position `i` on, the segments that are non-empty and not `.`;
/// `start` is where the current segment began.
pub open spec fn named_segments(p: Seq<char>, start: int, i: int) -> int
    decreases p.len() - i,
{
    if i < 0 || i > p.len() || start > i {
        0
    } else if i == p.len() || p[i] == '/' {
        let seg = p.subrange(start, i);
        let counted = if seg.len() == 0 || seg =~= seq!['.'] {
            0int
        } else {
            1int
        };
        if i == p.len() {
            counted
        } else {
            counted + named_segments(p, i + 1, i + 1)
        }
    } else {
        named_segments(p, start, i + 1)
    }
}

/// How deep `chapter_path` sits below the book's `src/`: the component
/// count of its parent (`Path::parent` then `components().count()`).
pub open spec fn chapter_depth(p: Seq<char>) -> int {
    if path_components(p) > 0 {
        path_components(p) - 1
    } else {
        0
    }
}

/// `"../"` repeated `n` times.
pub open spec fn up_dirs(n: int) -> Seq<char>
    decreases n,
{
    if n <= 0 {
        seq![]
    } else {
        up_dirs(n - 1) + "../"@
    }
}

/// The prefix from a chapter's page to the book's `images/` directory.
pub open spec fn svg_prefix(p: Seq<char>) -> Seq<char> {
    if chapter_depth(p) == 0 {
        "./images/"@
    } else {
        up_dirs(chapter_depth(p)) + "images/"@
    }
}

/// Counts the named segments of a Unix path (`named_segments(p, 0, 0)`).
fn count_named_segments(p: &Vec<char>) -> (n: usize)
    ensures
        n as int == named_segments(p@, 0, 0),
{
    let mut n: usize = 0;
    let mut start: usize = 0;
    let mut i: usize = 0;
    while i <= p.len()
        invariant
            start <= i <= p.len(),
            n <= start,
            named_segments(p@, 0, 0) == n + named_segments(p@, start as int, i as int),
        decreases p.len() + 1 - i,
    {
        if i == p.len() || p[i] == '/' {
            let seg_len = i - start;
            let is_dot = seg_len == 1 && p[start] == '.';
            proof {
                let seg = p@.subrange(start as int, i as int);
                if seg_len == 1 {
                    assert(seg[0] == p@[start as int]);
                    if p[start as int] == '.' {
                        assert(seg =~= seq!['.']);
                    }
                }
                if seg =~= seq!['.'] {
                    assert(seg[0] == p@[start as int]);
                }
            }
            if seg_len != 0 && !is_dot {
                n = n + 1;
            }
            if i == p.len() {
                return n;
            }
            start = i + 1;
        }
        i = i + 1;
    }
    n
}

/// The relative prefix from the HTML page of `chapter_path` (relative to the
/// book's `src/`, `/`-separated) to the `images/` directory:
/// `"index.md"` → `"./images/"`, `"test/7.md"` → `"../images/"`.
pub fn relative_svg_prefix(chapter_path: &str) -> (r: String)
    ensures
        r@ == svg_prefix(chapter_path@),
{
    let p = to_chars(chapter_path);
    let named = count_named_segments(&p);
    let rooted = p.len() > 0 && p[0] == '/';
    let dotted = p.len() > 0 && p[0] == '.' && (p.len() == 1 || p[1] == '/');
    let depth = if rooted || dotted {
        named
    } else if named > 0 {
        named - 1
    } else {
        0
    };
    if depth == 0 {
        return "./images/".to_string();
    }
    let mut out = String::new();
    let mut k: usize = 0;
    while k < depth
        invariant
            k <= depth,
            out@ == up_dirs(k as int),
        decreases depth - k,
    {
        out.append("../");
        k = k + 1;
    }
    out.append("images/");
    out
}

} // verus!
