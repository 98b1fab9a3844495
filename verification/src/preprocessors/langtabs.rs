//! mdbook-langtabs: code blocks in several languages shown as tabs.
use vstd::prelude::*;
use crate::hashing::hex_digit;
use crate::pattern::{groups_view, pieces_view, regex_pieces, regex_split};
use crate::preprocessors::embedify::group_text;
use crate::text::{decimal, find, find_str, lemma_find_from, push_char, push_decimal, push_range, to_chars, trim, trim_range};

verus! {

/// The preprocessor.
pub struct LangTabsPreprocessor;

impl LangTabsPreprocessor {
    /// The name mdbook knows the preprocessor by.
    pub fn name(&self) -> (r: &'static str)
        ensures
            r@ == "mdbook-langtabs"@,
    {
        "mdbook-langtabs"
    }

    /// Only the HTML renderer is supported.
    pub fn supports_renderer(&self, renderer: &str) -> (r: bool)
        ensures
            r == (renderer@ == "html"@),
    {
        crate::text::str_eq(renderer, "html")
    }
}

// ───────────────────────── escaping ─────────────────────────

/// `n` in lower-case hexadecimal, without leading zeros.
pub open spec fn hex_digits(n: nat) -> Seq<char>
    decreases n,
{
    if n < 16 {
        seq![hex_digit(n as int)]
    } else {
        hex_digits(n / 16).push(hex_digit((n % 16) as int))
    }
}

/// `char::escape_default`: tab, carriage return and line feed as `\t`,
/// `\r`, `\n`; quotes and backslash behind a backslash; printable ASCII as
/// it is; anything else as `\u{…}`.
pub open spec fn char_escaped(c: char) -> Seq<char> {
    if c == '\t' {
        seq!['\\', 't']
    } else if c == '\r' {
        seq!['\\', 'r']
    } else if c == '\n' {
        seq!['\\', 'n']
    } else if c == '\\' || c == '\'' || c == '"' {
        seq!['\\', c]
    } else if 0x20 <= (c as u32) <= 0x7e {
        seq![c]
    } else {
        seq!['\\', 'u', '{'] + hex_digits(c as u32 as nat) + seq!['}']
    }
}

/// `str::escape_default`: each character escaped.
pub open spec fn escaped_default(s: Seq<char>) -> Seq<char>
    decreases s.len(),
{
    if s.len() == 0 {
        seq![]
    } else {
        escaped_default(s.drop_last()) + char_escaped(s.last())
    }
}

/// Appends `n` in hexadecimal.
pub fn push_hex(out: &mut String, n: u32)
    ensures
        final(out)@ == old(out)@ + hex_digits(n as nat),
    decreases n,
{
    if n >= 16 {
        push_hex(out, n / 16);
    }
    let d = n % 16;
    let c = if d < 10 {
        (48u8 + d as u8) as char
    } else {
        (87u8 + d as u8) as char
    };
    push_char(out, c);
    proof {
        if n >= 16 {
            assert(old(out)@ + hex_digits((n / 16) as nat) + seq![hex_digit((n % 16) as int)] =~= old(
                out,
            )@ + hex_digits(n as nat));
        } else {
            assert(old(out)@.push(c) =~= old(out)@ + hex_digits(n as nat));
        }
    }
}

/// Appends a text, each character escaped.
fn push_escaped_default(out: &mut String, s: &Vec<char>)
    ensures
        final(out)@ == old(out)@ + escaped_default(s@),
{
    let mut i: usize = 0;
    while i < s.len()
        invariant
            i <= s.len(),
            out@ == old(out)@ + escaped_default(s@.take(i as int)),
        decreases s.len() - i,
    {
        assert(s@.take(i + 1).drop_last() =~= s@.take(i as int));
        let c = s[i];
        let ghost before = out@;
        if c == '\t' {
            out.append("\\t");
        } else if c == '\r' {
            out.append("\\r");
        } else if c == '\n' {
            out.append("\\n");
        } else if c == '\\' || c == '\'' || c == '"' {
            push_char(out, '\\');
            push_char(out, c);
        } else if 0x20 <= (c as u32) && (c as u32) <= 0x7e {
            push_char(out, c);
        } else {
            out.append("\\u{");
            push_hex(out, c as u32);
            out.append("}");
        }
        proof {
            reveal_strlit("\\t");
            reveal_strlit("\\r");
            reveal_strlit("\\n");
            reveal_strlit("\\u{");
            reveal_strlit("}");
        }
        assert(out@ =~= before + char_escaped(c));
        i = i + 1;
    }
    assert(s@.take(s@.len() as int) =~= s@);
}

// ───────────────────────── tab groups ─────────────────────────

/// A fenced code block inside a tab group: its language and its code.
pub const TAB_BLOCK: &'static str = "(?ms)```(\\w+)\\s*\\n(.*?)```";

/// ` active` for the first tab, nothing for the others.
pub open spec fn active(i: int) -> Seq<char> {
    if i == 0 {
        " active"@
    } else {
        seq![]
    }
}

/// The tab headers of group `id`, from tab `i` on.
pub open spec fn tab_headers(tabs: Seq<(Seq<char>, Seq<Option<Seq<char>>>)>, id: nat, i: int) -> Seq<char>
    decreases tabs.len() - i,
{
    if i < 0 || i >= tabs.len() {
        seq![]
    } else {
        "  <li class=\"langtabs-tab"@ + active(i) + "\" role=\"tab\" data-langtabs-tab=\""@ + decimal(id)
            + "-"@ + decimal(i as nat) + "\">"@ + group_text(tabs[i].1, 1) + "</li>"@ + "\n"@
            + tab_headers(tabs, id, i + 1)
    }
}

/// The tab panels of group `id`, from tab `i` on: each tab's code, trimmed
/// and escaped.
pub open spec fn tab_panels(tabs: Seq<(Seq<char>, Seq<Option<Seq<char>>>)>, id: nat, i: int) -> Seq<char>
    decreases tabs.len() - i,
{
    if i < 0 || i >= tabs.len() {
        seq![]
    } else {
        "<div class=\"langtabs-panel"@ + active(i) + "\" role=\"tabpanel\" data-langtabs-panel=\""@
            + decimal(id) + "-"@ + decimal(i as nat) + "\">\n<pre><code>"@ + escaped_default(
            trim(group_text(tabs[i].1, 2)),
        ) + "</code></pre>\n</div>\n"@ + tab_panels(tabs, id, i + 1)
    }
}

/// The HTML of the tab group `id` made of a block's code blocks; nothing
/// when the block has none.
pub open spec fn tabs_html(block: Seq<char>, id: nat) -> Seq<char> {
    let tabs = regex_pieces(TAB_BLOCK@, block).0;
    if tabs.len() == 0 {
        seq![]
    } else {
        "<div class=\"langtabs\">\n"@ + "<ul class=\"langtabs-tabs\" role=\"tablist\">\n"@ + tab_headers(tabs, id, 0)
            + "</ul>\n"@ + tab_panels(tabs, id, 0) + "</div>\n"@
    }
}

/// Renders a tab group as number `id`; returns the HTML and whether the
/// group had tabs (and so used up its number).
pub fn render_tabs(block: &str, id: u64) -> (r: (String, bool))
    ensures
        r.0@ == tabs_html(block@, id as nat),
        r.1 == (regex_pieces(TAB_BLOCK@, block@).0.len() > 0),
{
    let (pieces, _tail) = regex_split(TAB_BLOCK, block);
    let ghost pv = pieces_view(pieces@);
    if pieces.len() == 0 {
        return (String::new(), false);
    }
    let mut html = String::new();
    html.append("<div class=\"langtabs\">\n");
    html.append("<ul class=\"langtabs-tabs\" role=\"tablist\">\n");
    let ghost base = html@;
    let mut i: usize = 0;
    while i < pieces.len()
        invariant
            i <= pieces.len(),
            pv == pieces_view(pieces@),
            tab_headers(pv, id as nat, 0) == html@.skip(base.len() as int) + tab_headers(pv, id as nat, i as int),
            base.len() <= html@.len(),
            html@.take(base.len() as int) == base,
        decreases pieces.len() - i,
    {
        let ghost before = html@;
        html.append("  <li class=\"langtabs-tab");
        if i == 0 {
            html.append(" active");
        }
        html.append("\" role=\"tab\" data-langtabs-tab=\"");
        push_decimal(&mut html, id);
        html.append("-");
        push_decimal(&mut html, i as u64);
        html.append("\">");
        let g = &pieces[i].1;
        if g.len() > 1 {
            match &g[1] {
                Some(t) => html.append(t.as_str()),
                None => {},
            }
        }
        html.append("</li>");
        html.append("\n");
        proof {
            reveal_strlit(" active");
            let piece = "  <li class=\"langtabs-tab"@ + active(i as int) + "\" role=\"tab\" data-langtabs-tab=\""@ + decimal(id as nat)
                + "-"@ + decimal(i as nat) + "\">"@ + group_text(pv[i as int].1, 1) + "</li>"@ + "\n"@;
            assert(html@ =~= before + piece);
            assert(html@.skip(base.len() as int) =~= before.skip(base.len() as int) + piece);
            assert(html@.take(base.len() as int) =~= before.take(base.len() as int));
        }
        i = i + 1;
    }
    proof {
        assert(tab_headers(pv, id as nat, pieces@.len() as int) =~= seq![]);
        assert(html@ =~= html@.take(base.len() as int) + html@.skip(base.len() as int));
        assert(html@ =~= base + tab_headers(pv, id as nat, 0));
    }
    html.append("</ul>\n");
    let ghost base2 = html@;
    let mut k: usize = 0;
    while k < pieces.len()
        invariant
            k <= pieces.len(),
            pv == pieces_view(pieces@),
            tab_panels(pv, id as nat, 0) == html@.skip(base2.len() as int) + tab_panels(pv, id as nat, k as int),
            base2.len() <= html@.len(),
            html@.take(base2.len() as int) == base2,
        decreases pieces.len() - k,
    {
        let ghost before = html@;
        html.append("<div class=\"langtabs-panel");
        if k == 0 {
            html.append(" active");
        }
        html.append("\" role=\"tabpanel\" data-langtabs-panel=\"");
        push_decimal(&mut html, id);
        html.append("-");
        push_decimal(&mut html, k as u64);
        html.append("\">\n<pre><code>");
        let g = &pieces[k].1;
        let code: Vec<char> = if g.len() > 2 {
            match &g[2] {
                Some(t) => to_chars(t.as_str()),
                None => Vec::new(),
            }
        } else {
            Vec::new()
        };
        assert(code@ == group_text(pv[k as int].1, 2));
        let (a, b) = trim_range(&code, 0, code.len());
        assert(code@.subrange(0, code@.len() as int) =~= code@);
        let mut tr: Vec<char> = Vec::new();
        crate::text::extend_range(&mut tr, &code, a, b);
        push_escaped_default(&mut html, &tr);
        html.append("</code></pre>\n</div>\n");
        proof {
            reveal_strlit(" active");
            let piece = "<div class=\"langtabs-panel"@ + active(k as int) + "\" role=\"tabpanel\" data-langtabs-panel=\""@
                + decimal(id as nat) + "-"@ + decimal(k as nat) + "\">\n<pre><code>"@ + escaped_default(
                trim(group_text(pv[k as int].1, 2)),
            ) + "</code></pre>\n</div>\n"@;
            assert(html@ =~= before + piece);
            assert(html@.skip(base2.len() as int) =~= before.skip(base2.len() as int) + piece);
            assert(html@.take(base2.len() as int) =~= before.take(base2.len() as int));
        }
        k = k + 1;
    }
    proof {
        assert(tab_panels(pv, id as nat, pieces@.len() as int) =~= seq![]);
        assert(html@ =~= html@.take(base2.len() as int) + html@.skip(base2.len() as int));
        assert(html@ =~= base2 + tab_panels(pv, id as nat, 0));
    }
    html.append("</div>\n");
    (html, true)
}

// ───────────────────────── the chapter ─────────────────────────

/// The marker that opens a tab group.
pub const TABS_START: &'static str = "<!-- langtabs-start -->";
/// The marker that closes a tab group.
pub const TABS_END: &'static str = "<!-- langtabs-end -->";

/// An end marker found after a start marker begins after it ends (the two
/// markers cannot overlap).
pub proof fn lemma_markers_apart(s: Seq<char>, a: int, b: int)
    requires
        crate::text::match_at(s, TABS_START@, a),
        crate::text::match_at(s, TABS_END@, b),
        a < b,
    ensures
        a + TABS_START@.len() <= b,
{
    reveal_strlit("<!-- langtabs-start -->");
    reveal_strlit("<!-- langtabs-end -->");
    if b < a + 23 {
        assert(s[b] == TABS_END@[0]);
        assert(s.subrange(a, a + 23)[b - a] == s[b]);
        assert(TABS_START@[b - a] != '<');
    }
}

/// The text with each tab group (between a start and an end marker, as
/// long as the next end marker comes after the next start marker) replaced
/// by its HTML; the groups that have tabs are numbered from `id` on.
pub open spec fn langtabs_from(s: Seq<char>, id: nat) -> Seq<char>
    decreases s.len(),
{
    match find(s, TABS_START@) {
        Some(a) => match find(s, TABS_END@) {
            Some(b) => if a < b {
                proof {
                    lemma_find_from(s, TABS_START@, 0);
                    lemma_find_from(s, TABS_END@, 0);
                    lemma_markers_apart(s, a, b);
                    reveal_strlit("<!-- langtabs-end -->");
                }
                let block = s.subrange(a + TABS_START@.len(), b);
                let used: nat = if regex_pieces(TAB_BLOCK@, block).0.len() > 0 {
                    1
                } else {
                    0
                };
                s.take(a) + tabs_html(block, id) + langtabs_from(s.skip(b + TABS_END@.len()), id + used)
            } else {
                s
            },
            None => s,
        },
        None => s,
    }
}

/// A chapter with its tab groups rendered.
pub open spec fn langtabbed(content: Seq<char>) -> Seq<char> {
    langtabs_from(content, 0)
}

/// Renders the tab groups of a chapter (see `langtabs_from`).
pub fn process_chapter(content: &str) -> (r: String)
    ensures
        r@ == langtabbed(content@),
{
    proof {
        reveal_strlit("<!-- langtabs-start -->");
        reveal_strlit("<!-- langtabs-end -->");
    }
    let mut rest = to_chars(content);
    let n = rest.len();
    let mut out = String::new();
    let mut id: u64 = 0;
    loop
        invariant
            langtabbed(content@) == out@ + langtabs_from(rest@, id as nat),
            id + rest@.len() <= n,
        decreases rest@.len(),
    {
        proof {
            reveal_strlit("<!-- langtabs-start -->");
            reveal_strlit("<!-- langtabs-end -->");
        }
        let a = match find_str(&rest, TABS_START) {
            Some(a) => a,
            None => {
                crate::text::push_all(&mut out, &rest);
                return out;
            },
        };
        let b = match find_str(&rest, TABS_END) {
            Some(b) => b,
            None => {
                crate::text::push_all(&mut out, &rest);
                return out;
            },
        };
        if a >= b {
            crate::text::push_all(&mut out, &rest);
            return out;
        }
        proof {
            lemma_find_from(rest@, TABS_START@, 0);
            lemma_find_from(rest@, TABS_END@, 0);
            lemma_markers_apart(rest@, a as int, b as int);
        }
        push_range(&mut out, &rest, 0, a);
        assert(rest@.subrange(0, a as int) =~= rest@.take(a as int));
        let mut block = String::new();
        push_range(&mut block, &rest, a + 23, b);
        let (html, used) = render_tabs(block.as_str(), id);
        out.append(html.as_str());
        let mut next: Vec<char> = Vec::new();
        crate::text::extend_range(&mut next, &rest, b + 21, rest.len());
        assert(next@ =~= rest@.skip(b + 21));
        if used {
            id = id + 1;
        }
        rest = next;
    }
}

/// The preprocessor pass over a book: the content of every chapter
/// processed. Reading the book from mdbook and writing it back is left to
/// the caller.
pub fn run(chapters: &[String]) -> (r: Vec<String>)
    ensures
        r.len() == chapters.len(),
        forall|i: int| 0 <= i < chapters.len() ==> #[trigger] r[i]@ == langtabbed(chapters[i]@),
{
    let mut r: Vec<String> = Vec::new();
    let mut i: usize = 0;
    while i < chapters.len()
        invariant
            i <= chapters.len(),
            r.len() == i,
            forall|k: int| 0 <= k < i ==> #[trigger] r[k]@ == langtabbed(chapters[k]@),
        decreases chapters.len() - i,
    {
        r.push(process_chapter(chapters[i].as_str()));
        i = i + 1;
    }
    r
}

/// The entry the unified preprocessor calls: the chapter processed (see
/// `langtabbed`).
pub fn process_content(content: &str) -> (r: String)
    ensures
        r@ == langtabbed(content@),
{
    process_chapter(content)
}

} // verus!
