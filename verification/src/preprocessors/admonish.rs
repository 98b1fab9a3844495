//! mdbook-admonish: ```` ```admonish <type> ["title"] [collapsible] ```` (or
//! `~~~`) blocks become Material-style admonitions. The work is done on the
//! text, line by line, so that HTML inserted by other preprocessors is left
//! alone; the block body and the title are rendered with pulldown-cmark.
use vstd::prelude::*;
use crate::markdown::{commonmark_html, markdown_to_html};
use crate::text::{chars_eq, copy_chars, lines_from, vviews, 
    ascii_lowercase, contains, decimal, ends_with, find, find_from, is_ws, join, lemma_find_from,
    lemma_line_end, line_at, line_end, match_at, next_line, push_char, push_range, skip_ws,
    split_whitespace, starts_with, strip_prefixes, to_chars, trim, trim_range, unicode_alphanumeric,
    unicode_lowercase, unicode_uppercase_char, words, char_to_uppercase, is_alphanumeric,
    is_ws_exec, to_lowercase, contains_str, find_char_from, starts_with_str, push_all,
};

verus! {

broadcast use vstd::string::group_string_axioms;

/// The preprocessor.
pub struct AdmonishPreprocessor;

impl AdmonishPreprocessor {
    /// The name mdbook knows the preprocessor by.
    pub fn name(&self) -> (r: &'static str)
        ensures
            r@ == "mdbook-admonish"@,
    {
        "mdbook-admonish"
    }

    /// Every renderer is supported except the one named `not-supported`.
    pub fn supports_renderer(&self, renderer: &str) -> (r: bool)
        ensures
            r == (renderer@ != "not-supported"@),
    {
        !crate::text::str_eq(renderer, "not-supported")
    }
}

// ───────────────────────── the opening line ─────────────────────────

/// A (trimmed) line opens an admonition.
pub open spec fn admonish_start(t: Seq<char>) -> bool {
    starts_with(t, "```admonish"@) || t == "```admonish"@ || starts_with(t, "~~~admonish"@) || t
        == "~~~admonish"@
}

/// Whether a trimmed line opens an admonition (```` ```admonish ```` or `~~~admonish`).
pub fn is_admonish_start(trimmed: &str) -> (r: bool)
    ensures
        r == admonish_start(trimmed@),
{
    let t = to_chars(trimmed);
    starts_with_str(&t, "```admonish") || crate::text::str_eq(trimmed, "```admonish")
        || starts_with_str(&t, "~~~admonish") || crate::text::str_eq(trimmed, "~~~admonish")
}

/// A line is a fence (its trimmed form starts with ```` ``` ```` or `~~~`).
pub open spec fn fence_marker(line: Seq<char>) -> bool {
    starts_with(trim(line), "```"@) || starts_with(trim(line), "~~~"@)
}

/// Whether a line opens or closes a fenced block.
pub fn is_fence_marker(line: &str) -> (r: bool)
    ensures
        r == fence_marker(line@),
{
    let l = to_chars(line);
    let (a, b) = trim_range(&l, 0, l.len());
    let mut t: Vec<char> = Vec::new();
    crate::text::extend_range(&mut t, &l, a, b);
    assert(l@.subrange(0, l@.len() as int) =~= l@);
    starts_with_str(&t, "```") || starts_with_str(&t, "~~~")
}

/// The words of the opening line after the fence and the `admonish` keyword.
pub open spec fn start_words(line: Seq<char>) -> Seq<Seq<char>> {
    let rest = trim(strip_prefixes(strip_prefixes(line, "```"@), "~~~"@));
    let rest2 = if starts_with(rest, "admonish"@) {
        trim(rest.skip(8))
    } else {
        rest
    };
    words(rest2)
}

/// The first word names the kind unless it opens a quoted title or is
/// `collapsible` (in any ASCII case).
pub open spec fn names_kind(w: Seq<char>) -> bool {
    !starts_with(w, "\""@) && !(w.len() == 11 && ascii_lowercase(w) == "collapsible"@)
}

/// The words after the kind, joined by single spaces.
pub open spec fn option_text(line: Seq<char>) -> Seq<char> {
    let ws = start_words(line);
    if ws.len() > 0 && names_kind(ws[0]) {
        join(ws.skip(1), " "@)
    } else {
        join(ws, " "@)
    }
}

/// The text between the first two `"` of `j`, when not empty.
pub open spec fn quoted_title(j: Seq<char>) -> Option<Seq<char>> {
    match find(j, "\""@) {
        Some(st) => match find_from(j, "\""@, st + 1) {
            Some(en) => if en > st + 1 {
                Some(j.subrange(st + 1, en))
            } else {
                None
            },
            None => None,
        },
        None => None,
    }
}

/// The kind, custom title and collapsibility an opening line declares; the
/// kind is `note` when none is given.
pub open spec fn admonish_options(line: Seq<char>) -> (Seq<char>, Option<Seq<char>>, bool) {
    let ws = start_words(line);
    let kind = if ws.len() > 0 && names_kind(ws[0]) {
        ws[0]
    } else {
        "note"@
    };
    let j = option_text(line);
    (kind, quoted_title(j), contains(j, "collapsible"@))
}

proof fn lemma_match_in_concat(a: Seq<char>, b: Seq<char>, pat: Seq<char>, q: int)
    ensures
        match_at(a, pat, q) ==> match_at(a + b, pat, q),
        match_at(b, pat, q) ==> match_at(a + b, pat, a.len() + q),
{
    if match_at(a, pat, q) {
        assert((a + b).subrange(q, q + pat.len()) =~= a.subrange(q, q + pat.len()));
    }
    if match_at(b, pat, q) {
        assert((a + b).subrange(a.len() + q, a.len() + q + pat.len()) =~= b.subrange(q, q + pat.len()));
    }
}

/// A word of a list that holds `pat` at `q` puts it in the joined text.
proof fn lemma_join_match(ls: Seq<Seq<char>>, sep: Seq<char>, pat: Seq<char>, k: int, q: int) -> (r: int)
    requires
        0 <= k < ls.len(),
        match_at(ls[k], pat, q),
    ensures
        match_at(join(ls, sep), pat, r),
    decreases ls.len(),
{
    if ls.len() == 1 {
        q
    } else if k == ls.len() - 1 {
        let a = join(ls.drop_last(), sep) + sep;
        lemma_match_in_concat(a, ls.last(), pat, q);
        a.len() + q
    } else {
        let r0 = lemma_join_match(ls.drop_last(), sep, pat, k, q);
        lemma_match_in_concat(join(ls.drop_last(), sep), sep, pat, r0);
        lemma_match_in_concat(join(ls.drop_last(), sep) + sep, ls.last(), pat, r0);
        r0
    }
}

/// An opening line declares a collapsible admonition whenever one of the
/// words after its kind mentions `collapsible` (as in
/// ```` ```admonish tip collapsible=true ````), and its kind is its first
/// word when that names one.
pub proof fn law_collapsible_option(line: Seq<char>, k: int, q: int)
    requires
        start_words(line).len() > 0,
        names_kind(start_words(line)[0]),
        1 <= k < start_words(line).len(),
        match_at(start_words(line)[k], "collapsible"@, q),
    ensures
        admonish_options(line).0 == start_words(line)[0],
        admonish_options(line).2,
{
    let ws = start_words(line);
    assert(ws.skip(1)[k - 1] == ws[k]);
    let r = lemma_join_match(ws.skip(1), " "@, "collapsible"@, k - 1, q);
    lemma_find_from(join(ws.skip(1), " "@), "collapsible"@, 0);
}

/// `strip_prefixes`, computed on `s[a..b]`: where the stripped text starts.
fn strip_prefixes_range(s: &Vec<char>, a: usize, b: usize, pat: &str) -> (r: usize)
    requires
        a <= b <= s.len(),
    ensures
        a <= r <= b,
        s@.subrange(r as int, b as int) == strip_prefixes(s@.subrange(a as int, b as int), pat@),
    decreases b - a,
{
    let p = to_chars(pat);
    if p.len() > 0 && b - a >= p.len() && crate::text::match_at_exec(s, &p, a) {
        proof {
            let t = s@.subrange(a as int, b as int);
            assert(t.take(p@.len() as int) =~= s@.subrange(a as int, a + p@.len()));
            assert(t.skip(p@.len() as int) =~= s@.subrange(a + p@.len(), b as int));
        }
        strip_prefixes_range(s, a + p.len(), b, pat)
    } else {
        proof {
            let t = s@.subrange(a as int, b as int);
            if p@.len() > 0 && starts_with(t, p@) {
                assert(t.take(p@.len() as int) =~= s@.subrange(a as int, a + p@.len()));
            }
        }
        a
    }
}

/// Whether `w` equals `collapsible` ignoring ASCII case.
fn is_collapsible_word(w: &Vec<char>) -> (r: bool)
    ensures
        r == (w@.len() == 11 && ascii_lowercase(w@) == "collapsible"@),
{
    let target = to_chars("collapsible");
    if w.len() != 11 {
        return false;
    }
    proof {
        reveal_strlit("collapsible");
    }
    let mut i: usize = 0;
    while i < 11
        invariant
            w@.len() == 11,
            target@.len() == 11,
            target@ == "collapsible"@,
            i <= 11,
            forall|k: int| 0 <= k < i ==> crate::text::ascii_lower(w@[k]) == target@[k],
        decreases 11 - i,
    {
        if crate::text::ascii_lower_exec(w[i]) != target[i] {
            assert(ascii_lowercase(w@)[i as int] != target@[i as int]);
            return false;
        }
        i = i + 1;
    }
    assert(ascii_lowercase(w@) =~= target@);
    true
}

/// `join(words, " ")`, computed.
fn join_words(ws: &Vec<Vec<char>>, from: usize) -> (r: Vec<char>)
    requires
        from <= ws.len(),
    ensures
        r@ == join(ws@.map_values(|w: Vec<char>| w@).skip(from as int), " "@),
{
    proof {
        reveal_strlit(" ");
    }
    let ghost all = ws@.map_values(|w: Vec<char>| w@).skip(from as int);
    let mut r: Vec<char> = Vec::new();
    let mut i = from;
    while i < ws.len()
        invariant
            from <= i <= ws.len(),
            all == ws@.map_values(|w: Vec<char>| w@).skip(from as int),
            r@ == join(all.take(i - from), " "@),
        decreases ws.len() - i,
    {
        proof {
            reveal_strlit(" ");
            crate::text::lemma_join_push(all.take(i - from), all[i - from], " "@);
            assert(all.take(i - from).push(all[i - from]) =~= all.take(i + 1 - from));
        }
        let ghost before = r@;
        if i > from {
            r.push(' ');
            assert(r@ =~= before + " "@);
        }
        crate::text::extend_range(&mut r, &ws[i], 0, ws[i].len());
        assert(ws[i as int]@.subrange(0, ws[i as int]@.len() as int) =~= ws[i as int]@);
        assert(all[i - from] == ws[i as int]@);
        i = i + 1;
    }
    assert(all.take(ws.len() - from) =~= all);
    r
}

/// Reads the kind, custom title and collapsibility of an opening line.
pub fn parse_admonish_start(line: &str) -> (r: (String, Option<String>, bool))
    ensures
        admonish_options(line@) == (r.0@, match r.1 {
            Some(t) => Some(t@),
            None => None,
        }, r.2),
{
    proof {
        reveal_strlit("admonish");
        reveal_strlit("\"");
    }
    let l = to_chars(line);
    let a1 = strip_prefixes_range(&l, 0, l.len(), "```");
    let a2 = strip_prefixes_range(&l, a1, l.len(), "~~~");
    assert(l@.subrange(0, l@.len() as int) =~= l@);
    let (ta, tb) = trim_range(&l, a2, l.len());
    let mut rest: Vec<char> = Vec::new();
    crate::text::extend_range(&mut rest, &l, ta, tb);
    let rest2: Vec<char> = if starts_with_str(&rest, "admonish") {
        let mut t: Vec<char> = Vec::new();
        crate::text::extend_range(&mut t, &rest, 8, rest.len());
        assert(t@ =~= rest@.skip(8));
        let (x, y) = trim_range(&t, 0, t.len());
        assert(t@.subrange(0, t@.len() as int) =~= t@);
        let mut u: Vec<char> = Vec::new();
        crate::text::extend_range(&mut u, &t, x, y);
        u
    } else {
        rest
    };
    let ws = split_whitespace(&rest2);
    let ghost wv = ws@.map_values(|w: Vec<char>| w@);
    assert(wv == start_words(line@));
    let has_kind = ws.len() > 0 && !starts_with_str(&ws[0], "\"") && !is_collapsible_word(&ws[0]);
    proof {
        if ws.len() > 0 {
            assert(wv[0] == ws@[0]@);
        }
    }
    let kind: Vec<char> = if has_kind {
        ws[0].clone()
    } else {
        to_chars("note")
    };
    let j = join_words(&ws, if has_kind { 1 } else { 0 });
    assert(wv.skip(0) =~= wv);
    let collapsible = contains_str(&j, "collapsible");
    let mut title: Option<String> = None;
    match find_char_from(&j, '"', 0) {
        Some(st) => {
            proof {
                lemma_find_from(j@, seq!['"'], 0);
                assert("\""@ =~= seq!['"']);
            }
            match find_char_from(&j, '"', st + 1) {
                Some(en) => {
                    proof {
                        lemma_find_from(j@, seq!['"'], st + 1);
                    }
                    if en > st + 1 {
                        let mut t = String::new();
                        push_range(&mut t, &j, st + 1, en);
                        title = Some(t);
                    }
                },
                None => {},
            }
        },
        None => {
            assert("\""@ =~= seq!['"']);
        },
    }
    (crate::text::from_chars(&kind), title, collapsible)
}

// ───────────────────────── titles and ids ─────────────────────────

/// `s` with its first character upper-cased.
pub open spec fn capitalized(s: Seq<char>) -> Seq<char> {
    if s.len() == 0 {
        seq![]
    } else {
        unicode_uppercase_char(s[0]) + s.skip(1)
    }
}

/// Upper-cases the first character.
pub fn capitalize_first(s: &str) -> (r: String)
    ensures
        r@ == capitalized(s@),
{
    let cs = to_chars(s);
    if cs.len() == 0 {
        return String::new();
    }
    let mut r = char_to_uppercase(cs[0]);
    push_range(&mut r, &cs, 1, cs.len());
    assert(cs@.subrange(1, cs@.len() as int) =~= cs@.skip(1));
    r
}

/// From position `i` on, the text outside `<…>` tags (`in_tag` says whether
/// position `i` is inside one).
pub open spec fn untagged_from(s: Seq<char>, i: int, in_tag: bool) -> Seq<char>
    decreases s.len() - i,
{
    if i < 0 || i >= s.len() {
        seq![]
    } else if s[i] == '<' {
        untagged_from(s, i + 1, true)
    } else if s[i] == '>' {
        untagged_from(s, i + 1, false)
    } else if !in_tag {
        seq![s[i]] + untagged_from(s, i + 1, in_tag)
    } else {
        untagged_from(s, i + 1, in_tag)
    }
}

/// The text with its HTML tags removed.
pub open spec fn untagged(s: Seq<char>) -> Seq<char> {
    untagged_from(s, 0, false)
}

/// Removes HTML tags, keeping the text between them.
pub fn strip_html_tags(text: &str) -> (r: String)
    ensures
        r@ == untagged(text@),
{
    let cs = to_chars(text);
    let mut r = String::new();
    let mut in_tag = false;
    let mut i: usize = 0;
    while i < cs.len()
        invariant
            i <= cs.len(),
            cs@ == text@,
            untagged(cs@) == r@ + untagged_from(cs@, i as int, in_tag),
        decreases cs.len() - i,
    {
        let c = cs[i];
        if c == '<' {
            in_tag = true;
        } else if c == '>' {
            in_tag = false;
        } else if !in_tag {
            push_char(&mut r, c);
        }
        i = i + 1;
    }
    r
}

/// A character of an id: letters, digits, `_` and `-` stay, whitespace
/// becomes `-`, anything else is dropped.
pub open spec fn id_chars(s: Seq<char>) -> Seq<char>
    decreases s.len(),
{
    if s.len() == 0 {
        seq![]
    } else {
        let c = s.last();
        id_chars(s.drop_last()) + if unicode_alphanumeric(c) || c == '_' || c == '-' {
            seq![c]
        } else if is_ws(c) {
            seq!['-']
        } else {
            seq![]
        }
    }
}

/// The id of an admonition with a custom title: the title without tags,
/// lower-cased and reduced to id characters, its words joined by `-`, with
/// no `-` at either end.
pub open spec fn title_id(title: Seq<char>) -> Seq<char> {
    crate::preprocessors::toc::trim_dashes(join(words(id_chars(unicode_lowercase(untagged(title)))), "-"@))
}

/// The anchor id of an admonition with a custom title (see `title_id`).
pub fn slugify_title(text: &str) -> (r: String)
    ensures
        r@ == title_id(text@),
{
    proof {
        reveal_strlit("-");
    }
    let stripped = strip_html_tags(text);
    let lower = to_lowercase(stripped.as_str());
    let l = to_chars(lower.as_str());
    let mut m: Vec<char> = Vec::new();
    let mut i: usize = 0;
    while i < l.len()
        invariant
            i <= l.len(),
            m@ == id_chars(l@.take(i as int)),
        decreases l.len() - i,
    {
        let c = l[i];
        assert(l@.take(i + 1).drop_last() =~= l@.take(i as int));
        if is_alphanumeric(c) || c == '_' || c == '-' {
            m.push(c);
        } else if is_ws_exec(c) {
            m.push('-');
        }
        i = i + 1;
    }
    assert(l@.take(l.len() as int) =~= l@);
    let ws = split_whitespace(&m);
    let ghost wv = ws@.map_values(|w: Vec<char>| w@);
    let mut joined: Vec<char> = Vec::new();
    let mut k: usize = 0;
    while k < ws.len()
        invariant
            k <= ws.len(),
            wv == ws@.map_values(|w: Vec<char>| w@),
            joined@ == join(wv.take(k as int), "-"@),
        decreases ws.len() - k,
    {
        proof {
            reveal_strlit("-");
            crate::text::lemma_join_push(wv.take(k as int), wv[k as int], "-"@);
            assert(wv.take(k as int).push(wv[k as int]) =~= wv.take(k + 1));
        }
        let ghost before = joined@;
        if k > 0 {
            joined.push('-');
            assert(joined@ =~= before + "-"@);
        }
        crate::text::extend_range(&mut joined, &ws[k], 0, ws[k].len());
        assert(ws[k as int]@.subrange(0, ws[k as int]@.len() as int) =~= ws[k as int]@);
        k = k + 1;
    }
    assert(wv.take(ws.len() as int) =~= wv);
    let (a, b) = trim_dashes_range_adm(&joined, 0, joined.len());
    assert(joined@.subrange(0, joined@.len() as int) =~= joined@);
    let mut r = String::new();
    push_range(&mut r, &joined, a, b);
    r
}

/// `trim_dashes` on `s[a..b]`, computed.
fn trim_dashes_range_adm(s: &Vec<char>, a: usize, b: usize) -> (r: (usize, usize))
    requires
        a <= b <= s.len(),
    ensures
        a <= r.0 <= r.1 <= b,
        s@.subrange(r.0 as int, r.1 as int) == crate::preprocessors::toc::trim_dashes(
            s@.subrange(a as int, b as int),
        ),
    decreases b - a,
{
    if a < b && s[a] == '-' {
        assert(s@.subrange(a as int, b as int).drop_first() =~= s@.subrange(a + 1, b as int));
        trim_dashes_range_adm(s, a + 1, b)
    } else if a < b && s[b - 1] == '-' {
        assert(s@.subrange(a as int, b as int).drop_last() =~= s@.subrange(a as int, b - 1));
        trim_dashes_range_adm(s, a, b - 1)
    } else {
        (a, b)
    }
}

/// The body of an admonition rendered as Markdown (tables, footnotes,
/// strikethrough and task lists enabled), trimmed.
pub open spec fn body_html(text: Seq<char>) -> Seq<char> {
    trim(commonmark_html(text, true))
}

/// Renders the body of an admonition.
pub fn render_markdown(text: &str) -> (r: String)
    ensures
        r@ == body_html(text@),
{
    let h = markdown_to_html(text, true);
    let cs = to_chars(h.as_str());
    let (a, b) = trim_range(&cs, 0, cs.len());
    assert(cs@.subrange(0, cs@.len() as int) =~= cs@);
    let mut r = String::new();
    push_range(&mut r, &cs, a, b);
    r
}

/// The title rendered as inline Markdown: the trimmed HTML, without an
/// enclosing `<p>…</p>` (then trimmed again).
pub open spec fn title_html(text: Seq<char>) -> Seq<char> {
    let t = trim(commonmark_html(text, false));
    if starts_with(t, "<p>"@) && ends_with(t.skip(3), "</p>"@) {
        trim(t.subrange(3, t.len() - 4))
    } else {
        t
    }
}

/// Renders a title as inline Markdown.
pub fn render_inline_markdown(text: &str) -> (r: String)
    ensures
        r@ == title_html(text@),
{
    proof {
        reveal_strlit("<p>");
        reveal_strlit("</p>");
    }
    let h = markdown_to_html(text, false);
    let cs = to_chars(h.as_str());
    let (a, b) = trim_range(&cs, 0, cs.len());
    assert(cs@.subrange(0, cs@.len() as int) =~= cs@);
    let mut t: Vec<char> = Vec::new();
    crate::text::extend_range(&mut t, &cs, a, b);
    if starts_with_str(&t, "<p>") && t.len() >= 7 && crate::text::ends_with_str(&t, "</p>") {
        let (x, y) = trim_range(&t, 3, t.len() - 4);
        let mut r = String::new();
        push_range(&mut r, &t, x, y);
        proof {
            assert(t@.skip(3).skip(t@.skip(3).len() - 4) =~= t@.skip(t@.len() - 4));
        }
        r
    } else {
        proof {
            if starts_with(t@, "<p>"@) && ends_with(t@.skip(3), "</p>"@) {
                assert(t@.len() >= 7);
            }
            if starts_with(t@, "<p>"@) && t@.len() >= 7 && !ends_with(t@, "</p>"@) {
                assert(t@.skip(3).skip(t@.skip(3).len() - 4) =~= t@.skip(t@.len() - 4));
            }
        }
        crate::text::from_chars(&t)
    }
}

// ───────────────────────── the chapter ─────────────────────────

/// How many times `k` occurs in `ks`.
pub open spec fn occurrences(ks: Seq<Seq<char>>, k: Seq<char>) -> nat
    decreases ks.len(),
{
    if ks.len() == 0 {
        0
    } else {
        occurrences(ks.drop_last(), k) + if ks.last() == k {
            1nat
        } else {
            0nat
        }
    }
}

/// The id of an admonition of kind `kind` with an automatic title, given the
/// kinds of the earlier ones: the kind itself the first time, then
/// `kind-1`, `kind-2`, ….
pub open spec fn auto_id(autos: Seq<Seq<char>>, kind: Seq<char>) -> Seq<char> {
    let n = occurrences(autos, kind);
    if n == 0 {
        kind
    } else {
        kind + "-"@ + decimal(n)
    }
}

/// The HTML of one admonition.
pub open spec fn admonition_html(kind: Seq<char>, id: Seq<char>, title: Seq<char>, body: Seq<char>, collapsible: bool) -> Seq<char> {
    if collapsible {
        "<details id=\"admonition-"@ + id + "\" class=\"admonition admonish-"@ + kind
            + "\">\n<summary class=\"admonition-title\">\n<p>"@ + title
            + "</p>\n<p><a class=\"admonition-anchor-link\" href=\""@ + "#admonition-"@ + id
            + "\"></a></p>\n</summary>\n<div>\n"@ + body + "\n</div>\n</details>\n"@
    } else {
        "<div id=\"admonition-"@ + id + "\" class=\"admonition admonish-"@ + kind
            + "\">\n<div class=\"admonition-title\">\n<p>"@ + title
            + "</p>\n<p><a class=\"admonition-anchor-link\" href=\""@ + "#admonition-"@ + id
            + "\"></a></p>\n</div>\n<div>\n"@ + body + "\n</div>\n</div>\n"@
    }
}

/// The state of the line-by-line pass.
pub struct AdmState {
    /// What has been written.
    pub out: Seq<char>,
    /// Inside an admonition.
    pub in_block: bool,
    /// Kind, custom title, collapsibility and fence of the open admonition.
    pub kind: Seq<char>,
    pub title: Option<Seq<char>>,
    pub collapsible: bool,
    pub fence: Seq<char>,
    /// Lines of the open admonition's body.
    pub body: Seq<Seq<char>>,
    /// Kinds of the finished admonitions with automatic titles.
    pub autos: Seq<Seq<char>>,
}

/// The admonition that closes in state `st`.
pub open spec fn closed_html(st: AdmState) -> Seq<char> {
    let id = match st.title {
        Some(t) => title_id(t),
        None => auto_id(st.autos, st.kind),
    };
    let shown = match st.title {
        Some(t) => t,
        None => capitalized(st.kind),
    };
    admonition_html(st.kind, id, title_html(shown), body_html(join(st.body, "\n"@)), st.collapsible)
}

/// One line of the pass.
pub open spec fn adm_step(st: AdmState, line: Seq<char>) -> AdmState {
    let t = trim(line);
    if st.in_block {
        if t == st.fence {
            AdmState {
                out: st.out + closed_html(st),
                in_block: false,
                body: seq![],
                autos: if st.title is None {
                    st.autos.push(st.kind)
                } else {
                    st.autos
                },
                ..st
            }
        } else {
            AdmState { body: st.body.push(line), ..st }
        }
    } else if admonish_start(t) {
        let (kind, title, collapsible) = admonish_options(t);
        AdmState {
            in_block: true,
            kind: kind,
            title: title,
            collapsible: collapsible,
            fence: if starts_with(t, "~~~"@) {
                "~~~"@
            } else {
                "```"@
            },
            body: seq![],
            ..st
        }
    } else {
        AdmState { out: st.out + line + "\n"@, ..st }
    }
}

/// The lines of `ls`, each followed by `'\n'`.
pub open spec fn lines_nl(ls: Seq<Seq<char>>) -> Seq<char>
    decreases ls.len(),
{
    if ls.len() == 0 {
        seq![]
    } else {
        lines_nl(ls.drop_last()) + ls.last() + "\n"@
    }
}

/// The output once every line is read: an admonition left open is given
/// back as its opening line (`{fence}admonish {kind}`) and its lines.
pub open spec fn adm_finish(st: AdmState) -> Seq<char> {
    if st.in_block {
        st.out + st.fence + "admonish "@ + st.kind + "\n"@ + lines_nl(st.body)
    } else {
        st.out
    }
}

/// The pass from position `p` on, in state `st`.
pub open spec fn adm_from(s: Seq<char>, p: int, st: AdmState) -> Seq<char>
    decreases s.len() + 1 - p,
{
    if p < 0 || p >= s.len() {
        adm_finish(st)
    } else {
        proof {
            lemma_line_end(s, p);
        }
        adm_from(s, line_end(s, p) + 1, adm_step(st, line_at(s, p)))
    }
}

/// `lines_nl` of a list with a line put in front.
proof fn lemma_lines_nl_prepend(l: Seq<char>, rest: Seq<Seq<char>>)
    ensures
        lines_nl(seq![l] + rest) == l + "\n"@ + lines_nl(rest),
    decreases rest.len(),
{
    if rest.len() == 0 {
        assert((seq![l] + rest).drop_last() =~= Seq::<Seq<char>>::empty());
        assert(lines_nl(seq![l] + rest) == lines_nl(Seq::<Seq<char>>::empty()) + l + "\n"@);
        assert(l + "\n"@ + lines_nl(rest) =~= Seq::<char>::empty() + l + "\n"@);
    } else {
        lemma_lines_nl_prepend(l, rest.drop_last());
        assert((seq![l] + rest).drop_last() =~= seq![l] + rest.drop_last());
        assert((seq![l] + rest).last() == rest.last());
        assert(l + "\n"@ + lines_nl(rest) =~= l + "\n"@ + lines_nl(rest.drop_last()) + rest.last() + "\n"@);
    }
}

/// Outside a block, lines that open none are written as they are.
proof fn lemma_plain_from(s: Seq<char>, p: int, st: AdmState)
    requires
        0 <= p,
        !st.in_block,
        forall|k: int| 0 <= k < lines_from(s, p).len() ==> !admonish_start(trim(#[trigger] lines_from(s, p)[k])),
    ensures
        adm_from(s, p, st) == st.out + lines_nl(lines_from(s, p)),
    decreases s.len() + 1 - p,
{
    if p < s.len() {
        lemma_line_end(s, p);
        let l = line_at(s, p);
        let rest = lines_from(s, line_end(s, p) + 1);
        assert(lines_from(s, p) == seq![l] + rest);
        assert(!admonish_start(trim(lines_from(s, p)[0])));
        assert forall|k: int| 0 <= k < rest.len() implies !admonish_start(trim(#[trigger] rest[k])) by {
            assert(rest[k] == lines_from(s, p)[k + 1]);
        }
        let st2 = adm_step(st, l);
        lemma_plain_from(s, line_end(s, p) + 1, st2);
        lemma_lines_nl_prepend(l, rest);
        assert(st2.out + lines_nl(rest) =~= st.out + lines_nl(lines_from(s, p)));
    } else {
        assert(st.out + lines_nl(lines_from(s, p)) =~= st.out);
    }
}

/// A chapter none of whose lines opens an admonition is given back line for
/// line, each line followed by a newline.
pub proof fn law_plain_chapter_kept(s: Seq<char>)
    requires
        forall|k: int| 0 <= k < crate::text::lines(s).len() ==> !admonish_start(trim(#[trigger] crate::text::lines(s)[k])),
    ensures
        admonished(s) == lines_nl(crate::text::lines(s)),
{
    lemma_plain_from(s, 0, adm_init());
    assert(adm_init().out + lines_nl(crate::text::lines(s)) =~= lines_nl(crate::text::lines(s)));
}

/// The initial state.
pub open spec fn adm_init() -> AdmState {
    AdmState {
        out: seq![],
        in_block: false,
        kind: seq![],
        title: None,
        collapsible: false,
        fence: seq![],
        body: seq![],
        autos: seq![],
    }
}

/// A chapter with its admonitions rendered.
pub open spec fn admonished(content: Seq<char>) -> Seq<char> {
    adm_from(content, 0, adm_init())
}

/// Counts the earlier admonitions of kind `kind` with automatic titles.
fn count_kind(autos: &Vec<Vec<char>>, kind: &Vec<char>) -> (n: usize)
    ensures
        n == occurrences(vviews(autos@), kind@),
        n <= autos.len(),
{
    let mut n: usize = 0;
    let mut i: usize = 0;
    while i < autos.len()
        invariant
            i <= autos.len(),
            n <= i,
            n == occurrences(vviews(autos@).take(i as int), kind@),
        decreases autos.len() - i,
    {
        assert(vviews(autos@).take(i + 1).drop_last() =~= vviews(autos@).take(i as int));
        if crate::text::str_eq(crate::text::from_chars(&autos[i]).as_str(), crate::text::from_chars(kind).as_str()) {
            n = n + 1;
        }
        i = i + 1;
    }
    assert(vviews(autos@).take(autos.len() as int) =~= vviews(autos@));
    n
}

/// Appends the HTML of one admonition.
fn push_admonition_html(
    out: &mut String,
    kind: &str,
    id: &str,
    title: &str,
    body: &str,
    collapsible: bool,
)
    ensures
        final(out)@ == old(out)@ + admonition_html(kind@, id@, title@, body@, collapsible),
{
    if collapsible {
        out.append("<details id=\"admonition-");
        out.append(id);
        out.append("\" class=\"admonition admonish-");
        out.append(kind);
        out.append("\">\n<summary class=\"admonition-title\">\n<p>");
        out.append(title);
        out.append("</p>\n<p><a class=\"admonition-anchor-link\" href=\"");
        out.append("#admonition-");
        out.append(id);
        out.append("\"></a></p>\n</summary>\n<div>\n");
        out.append(body);
        out.append("\n</div>\n</details>\n");
    } else {
        out.append("<div id=\"admonition-");
        out.append(id);
        out.append("\" class=\"admonition admonish-");
        out.append(kind);
        out.append("\">\n<div class=\"admonition-title\">\n<p>");
        out.append(title);
        out.append("</p>\n<p><a class=\"admonition-anchor-link\" href=\"");
        out.append("#admonition-");
        out.append(id);
        out.append("\"></a></p>\n</div>\n<div>\n");
        out.append(body);
        out.append("\n</div>\n</div>\n");
    }
}

/// Joins lines with `'\n'`.
fn join_lines(body: &Vec<Vec<char>>) -> (r: String)
    ensures
        r@ == join(vviews(body@), "\n"@),
{
    let mut joined = String::new();
    let mut i: usize = 0;
    while i < body.len()
        invariant
            i <= body.len(),
            joined@ == join(vviews(body@).take(i as int), "\n"@),
        decreases body.len() - i,
    {
        proof {
            reveal_strlit("\n");
            crate::text::lemma_join_push(vviews(body@).take(i as int), body@[i as int]@, "\n"@);
            assert(vviews(body@).take(i as int).push(body@[i as int]@) =~= vviews(body@).take(i + 1));
        }
        if i > 0 {
            joined.append("\n");
        }
        push_all(&mut joined, &body[i]);
        i = i + 1;
    }
    assert(vviews(body@).take(body.len() as int) =~= vviews(body@));
    joined
}

/// The id and the shown title of an admonition.
fn id_and_title(kind: &Vec<char>, title: &Option<String>, autos: &Vec<Vec<char>>) -> (r: (String, String))
    ensures
        r.0@ == match opt_view(*title) {
            Some(t) => title_id(t),
            None => auto_id(vviews(autos@), kind@),
        },
        r.1@ == match opt_view(*title) {
            Some(t) => t,
            None => capitalized(kind@),
        },
{
    match title {
        Some(t) => (slugify_title(t.as_str()), t.clone()),
        None => {
            let n = count_kind(autos, kind);
            let mut id = String::new();
            push_all(&mut id, kind);
            if n > 0 {
                id.append("-");
                crate::text::push_decimal(&mut id, n as u64);
            }
            let kind_s = crate::text::from_chars(kind);
            (id, capitalize_first(kind_s.as_str()))
        },
    }
}

/// Writes the admonition that closes.
fn write_admonition(
    out: &mut String,
    kind: &Vec<char>,
    title: &Option<String>,
    collapsible: bool,
    body: &Vec<Vec<char>>,
    autos: &Vec<Vec<char>>,
)
    ensures
        final(out)@ == old(out)@ + closed_html(
            AdmState {
                out: seq![],
                in_block: true,
                kind: kind@,
                title: opt_view(*title),
                collapsible: collapsible,
                fence: seq![],
                body: vviews(body@),
                autos: vviews(autos@),
            },
        ),
{
    let joined = join_lines(body);
    let body_h = render_markdown(joined.as_str());
    let (id, shown) = id_and_title(kind, title, autos);
    let title_h = render_inline_markdown(shown.as_str());
    let kind_s = crate::text::from_chars(kind);
    push_admonition_html(out, kind_s.as_str(), id.as_str(), title_h.as_str(), body_h.as_str(), collapsible);
}

/// The view of an optional string.
pub open spec fn opt_view(o: Option<String>) -> Option<Seq<char>> {
    match o {
        Some(t) => Some(t@),
        None => None,
    }
}


/// Renders every admonition of a chapter; the other lines are kept, each
/// followed by `'\n'`.
pub fn process_chapter(content: &str) -> (r: String)
    ensures
        r@ == admonished(content@),
{
    proof {
        reveal_strlit("\n");
        reveal_strlit("~~~");
        reveal_strlit("```");
    }
    let s = to_chars(content);
    let mut out = String::new();
    let mut in_block = false;
    let mut kind: Vec<char> = Vec::new();
    let mut title: Option<String> = None;
    let mut collapsible = false;
    let mut fence: Vec<char> = Vec::new();
    let mut body: Vec<Vec<char>> = Vec::new();
    let mut autos: Vec<Vec<char>> = Vec::new();
    let mut p: usize = 0;
    assert(vviews(body@) =~= seq![]);
    assert(vviews(autos@) =~= seq![]);
    while p < s.len()
        invariant
            p <= s.len(),
            s@ == content@,
            admonished(s@) == adm_from(
                s@,
                p as int,
                (AdmState {
                    out: out@,
                    in_block: in_block,
                    kind: kind@,
                    title: opt_view(title),
                    collapsible: collapsible,
                    fence: fence@,
                    body: vviews(body@),
                    autos: vviews(autos@),
                }),
            ),
        decreases s.len() - p,
    {
        let ghost st0 = AdmState {
            out: out@,
            in_block: in_block,
            kind: kind@,
            title: opt_view(title),
            collapsible: collapsible,
            fence: fence@,
            body: vviews(body@),
            autos: vviews(autos@),
        };
        let (ce, le) = next_line(&s, p);
        let mut line: Vec<char> = Vec::new();
        crate::text::extend_range(&mut line, &s, p, ce);
        let (ta, tb) = trim_range(&line, 0, line.len());
        assert(line@.subrange(0, line@.len() as int) =~= line@);
        let mut t: Vec<char> = Vec::new();
        crate::text::extend_range(&mut t, &line, ta, tb);
        let ghost next = adm_step(st0, line@);
        if in_block {
            if chars_eq(&t, &fence) {
                write_admonition(&mut out, &kind, &title, collapsible, &body, &autos);
                if title.is_none() {
                    let k2 = copy_chars(&kind);
                    autos.push(k2);
                    assert(vviews(autos@) =~= st0.autos.push(st0.kind));
                }
                in_block = false;
                body = Vec::new();
                assert(vviews(body@) =~= seq![]);
            } else {
                let ghost lv = line@;
                body.push(line);
                assert(vviews(body@) =~= st0.body.push(lv));
            }
        } else {
            let ts = crate::text::from_chars(&t);
            if is_admonish_start(ts.as_str()) {
                let (k, ti, c) = parse_admonish_start(ts.as_str());
                kind = to_chars(k.as_str());
                title = ti;
                collapsible = c;
                fence = if starts_with_str(&t, "~~~") {
                    to_chars("~~~")
                } else {
                    to_chars("```")
                };
                in_block = true;
                body = Vec::new();
                assert(vviews(body@) =~= seq![]);
            } else {
                push_all(&mut out, &line);
                out.append("\n");
            }
        }
        let ghost p0 = p as int;
        p = if le < s.len() {
            le + 1
        } else {
            le
        };
        proof {
            lemma_line_end(s@, p0);
            let st1 = AdmState {
                out: out@,
                in_block: in_block,
                kind: kind@,
                title: opt_view(title),
                collapsible: collapsible,
                fence: fence@,
                body: vviews(body@),
                autos: vviews(autos@),
            };
            assert(st1.out =~= next.out);
            assert(st1.body =~= next.body);
            assert(st1.autos =~= next.autos);
            assert(st1 == next);
            assert(adm_from(s@, p0, st0) == adm_from(s@, line_end(s@, p0) + 1, next));
        }
    }
    if in_block {
        push_all(&mut out, &fence);
        out.append("admonish ");
        push_all(&mut out, &kind);
        out.append("\n");
        let mut i: usize = 0;
        let ghost base = out@;
        while i < body.len()
            invariant
                i <= body.len(),
                out@ == base + lines_nl(vviews(body@).take(i as int)),
            decreases body.len() - i,
        {
            assert(vviews(body@).take(i + 1).drop_last() =~= vviews(body@).take(i as int));
            push_all(&mut out, &body[i]);
            out.append("\n");
            i = i + 1;
        }
        assert(vviews(body@).take(body.len() as int) =~= vviews(body@));
    }
    out
}

/// The preprocessor pass over a book: the content of every chapter
/// processed. Reading the book from mdbook and writing it back is left to
/// the caller.
pub fn run(chapters: &[String]) -> (r: Vec<String>)
    ensures
        r.len() == chapters.len(),
        forall|i: int| 0 <= i < chapters.len() ==> #[trigger] r[i]@ == admonished(chapters[i]@),
{
    let mut r: Vec<String> = Vec::new();
    let mut i: usize = 0;
    while i < chapters.len()
        invariant
            i <= chapters.len(),
            r.len() == i,
            forall|k: int| 0 <= k < i ==> #[trigger] r[k]@ == admonished(chapters[k]@),
        decreases chapters.len() - i,
    {
        r.push(process_chapter(chapters[i].as_str()));
        i = i + 1;
    }
    r
}

/// The entry the unified preprocessor calls: the chapter processed (see
/// `admonished`).
pub fn process_content(content: &str) -> (r: String)
    ensures
        r@ == admonished(content@),
{
    process_chapter(content)
}

} // verus!
