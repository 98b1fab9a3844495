//! mdbook-alerts: GitHub-style `> [!NOTE]` alerts.
use vstd::prelude::*;
use crate::pattern::{groups_view, pieces_view, regex_pieces, regex_split};
use crate::preprocessors::embedify::group_text;
use crate::text::{replace_str, replaced, to_chars, to_lowercase, unicode_lowercase};

verus! {

/// The preprocessor.
pub struct AlertsPreprocessor;

impl AlertsPreprocessor {
    /// The name mdbook knows the preprocessor by.
    pub fn name(&self) -> (r: &'static str)
        ensures
            r@ == "mdbook-alerts"@,
    {
        "mdbook-alerts"
    }

    /// Only the HTML renderer is supported.
    pub fn supports_renderer(&self, renderer: &str) -> (r: bool)
        ensures
            r == (renderer@ == "html"@),
    {
        crate::text::str_eq(renderer, "html")
    }
}

/// How many times `c` occurs in `s`.
pub open spec fn count_of(s: Seq<char>, c: char) -> nat
    decreases s.len(),
{
    if s.len() == 0 {
        0
    } else {
        count_of(s.drop_last(), c) + if s.last() == c {
            1nat
        } else {
            0nat
        }
    }
}

/// The line ending a chapter uses: `"\r\n"` when it has as many carriage
/// returns as line feeds, `"\n"` otherwise.
pub open spec fn newline_of(s: Seq<char>) -> Seq<char> {
    if count_of(s, '\r') == count_of(s, '\n') {
        "\r\n"@
    } else {
        "\n"@
    }
}

/// Finds the line ending a chapter uses (see `newline_of`).
pub fn find_newline(content: &str) -> (r: &'static str)
    ensures
        r@ == newline_of(content@),
{
    let s = to_chars(content);
    let mut cr: usize = 0;
    let mut lf: usize = 0;
    let mut i: usize = 0;
    while i < s.len()
        invariant
            i <= s.len(),
            cr == count_of(s@.take(i as int), '\r'),
            lf == count_of(s@.take(i as int), '\n'),
            cr <= i,
            lf <= i,
        decreases s.len() - i,
    {
        assert(s@.take(i + 1).drop_last() =~= s@.take(i as int));
        if s[i] == '\r' {
            cr = cr + 1;
        } else if s[i] == '\n' {
            lf = lf + 1;
        }
        i = i + 1;
    }
    assert(s@.take(s@.len() as int) =~= s@);
    if cr == lf {
        "\r\n"
    } else {
        "\n"
    }
}

/// The chapter behind the alert styles (`css`, in a `<style>` element).
pub open spec fn with_stylesheet(content: Seq<char>, css: Seq<char>) -> Seq<char> {
    "<style>\n"@ + css + "\n</style>\n"@ + content
}

/// Puts the alert styles before the chapter.
pub fn inject_stylesheet(content: &str, css: &str) -> (r: String)
    ensures
        r@ == with_stylesheet(content@, css@),
{
    let mut r = String::new();
    r.append("<style>\n");
    r.append(css);
    r.append("\n</style>\n");
    r.append(content);
    r
}

/// A GitHub alert: a `> [!KIND]` line and the quoted lines after it.
pub const ALERT_BLOCK: &'static str = "(?m)^> \\[!(?P<kind>[^\\]]+)\\]\\s*$(?P<body>(?:\\n>.*)*)";

/// The body of an alert with its quote marks removed.
pub open spec fn alert_body(body: Seq<char>) -> Seq<char> {
    replaced(replaced(body, "\n>\n"@, "\n\n"@), "\n> "@, "\n"@)
}

/// The HTML of one alert: the template with `{kind}` (lower-cased) and
/// `{body}` filled in.
pub open spec fn alert_html(tmpl: Seq<char>, g: Seq<Option<Seq<char>>>) -> Seq<char> {
    replaced(replaced(tmpl, "{kind}"@, unicode_lowercase(group_text(g, 1))), "{body}"@, alert_body(group_text(g, 2)))
}

/// The pieces put back together with each alert replaced by its HTML.
pub open spec fn alerts_rebuilt(tmpl: Seq<char>, pieces: Seq<(Seq<char>, Seq<Option<Seq<char>>>)>, tail: Seq<char>) -> Seq<char>
    decreases pieces.len(),
{
    if pieces.len() == 0 {
        tail
    } else {
        pieces.first().0 + alert_html(tmpl, pieces.first().1) + alerts_rebuilt(tmpl, pieces.drop_first(), tail)
    }
}

/// A chapter with its alerts rendered from the template `tmpl`: the
/// chapter is read with `"\n"` line endings, and written back with its own.
pub open spec fn alerts_rendered(content: Seq<char>, tmpl: Seq<char>) -> Seq<char> {
    let t = replaced(tmpl, "\r\n"@, "\n"@);
    let nl = newline_of(content);
    let normalized = replaced(content, nl, "\n"@);
    let (pieces, tail) = regex_pieces(ALERT_BLOCK@, normalized);
    replaced(alerts_rebuilt(t, pieces, tail), "\n"@, nl)
}

/// Renders the alerts of a chapter (see `alerts_rendered`).
pub fn render_alerts(content: &str, tmpl: &str) -> (r: String)
    ensures
        r@ == alerts_rendered(content@, tmpl@),
{
    proof {
        reveal_strlit("\r\n");
        reveal_strlit("\n");
        reveal_strlit("{kind}");
        reveal_strlit("{body}");
        reveal_strlit("\n>\n");
        reveal_strlit("\n> ");
    }
    let tc = to_chars(tmpl);
    let t = replace_str(&tc, "\r\n", "\n");
    let nl = find_newline(content);
    let cc = to_chars(content);
    let normalized = replace_str(&cc, nl, "\n");
    let ns = crate::text::from_chars(&normalized);
    let (pieces, tail) = regex_split(ALERT_BLOCK, ns.as_str());
    let ghost pv = pieces_view(pieces@);
    let mut out: Vec<char> = Vec::new();
    let mut i: usize = 0;
    assert(pv.skip(0) =~= pv);
    while i < pieces.len()
        invariant
            i <= pieces.len(),
            pv == pieces_view(pieces@),
            alerts_rebuilt(t@, pv, tail@) == out@ + alerts_rebuilt(t@, pv.skip(i as int), tail@),
        decreases pieces.len() - i,
    {
        proof {
            reveal_strlit("{kind}");
            reveal_strlit("{body}");
            reveal_strlit("\n>\n");
            reveal_strlit("\n> ");
        }
        let gap = to_chars(pieces[i].0.as_str());
        crate::text::extend_range(&mut out, &gap, 0, gap.len());
        assert(gap@.subrange(0, gap@.len() as int) =~= gap@);
        let g = &pieces[i].1;
        let kind = group_chars(g, 1);
        let body = group_chars(g, 2);
        let ks = crate::text::from_chars(&kind);
        let lower = to_chars(to_lowercase(ks.as_str()).as_str());
        let b1 = replace_str(&body, "\n>\n", "\n\n");
        let b2 = replace_str(&b1, "\n> ", "\n");
        let h1 = replace_str_with(&t, "{kind}", &lower);
        let h2 = replace_str_with(&h1, "{body}", &b2);
        crate::text::extend_range(&mut out, &h2, 0, h2.len());
        assert(h2@.subrange(0, h2@.len() as int) =~= h2@);
        assert(pv.skip(i as int).drop_first() =~= pv.skip(i + 1));
        i = i + 1;
    }
    let tl = to_chars(tail.as_str());
    crate::text::extend_range(&mut out, &tl, 0, tl.len());
    assert(tl@.subrange(0, tl@.len() as int) =~= tl@);
    let fin = replace_str(&out, "\n", nl);
    crate::text::from_chars(&fin)
}

/// The characters of capture group `i` (none when it is unset).
fn group_chars(g: &Vec<Option<String>>, i: usize) -> (r: Vec<char>)
    ensures
        r@ == group_text(groups_view(g@), i as int),
{
    if i < g.len() {
        match &g[i] {
            Some(t) => to_chars(t.as_str()),
            None => Vec::new(),
        }
    } else {
        Vec::new()
    }
}

/// `replace_str` with a replacement held in characters.
fn replace_str_with(s: &Vec<char>, pat: &str, rep: &Vec<char>) -> (r: Vec<char>)
    requires
        pat@.len() > 0,
    ensures
        r@ == replaced(s@, pat@, rep@),
{
    let rs = crate::text::from_chars(rep);
    replace_str(s, pat, rs.as_str())
}

/// The preprocessor's work on a chapter: the styles `css` put before it,
/// then its alerts rendered from the template `tmpl`.
pub fn process_content(content: &str, css: &str, tmpl: &str) -> (r: String)
    ensures
        r@ == alerts_rendered(with_stylesheet(content@, css@), tmpl@),
{
    let styled = inject_stylesheet(content, css);
    render_alerts(styled.as_str(), tmpl)
}

/// The preprocessor pass over a book: the content of every chapter
/// processed with the styles `css` and the template `tmpl`. Reading the
/// book from mdbook and writing it back is left to the caller.
pub fn run(chapters: &[String], css: &str, tmpl: &str) -> (r: Vec<String>)
    ensures
        r.len() == chapters.len(),
        forall|i: int| 0 <= i < chapters.len() ==> #[trigger] r[i]@ == alerts_rendered(
            with_stylesheet(chapters[i]@, css@),
            tmpl@,
        ),
{
    let mut r: Vec<String> = Vec::new();
    let mut i: usize = 0;
    while i < chapters.len()
        invariant
            i <= chapters.len(),
            r.len() == i,
            forall|k: int| 0 <= k < i ==> #[trigger] r[k]@ == alerts_rendered(
                with_stylesheet(chapters[k]@, css@),
                tmpl@,
            ),
        decreases chapters.len() - i,
    {
        r.push(process_content(chapters[i].as_str(), css, tmpl));
        i = i + 1;
    }
    r
}

} // verus!
