//! mdbook-katex: `$…$` and `$$…$$` formulas pre-rendered with KaTeX. The
//! formulas are found by scanning the text; each one found is rendered by
//! KaTeX (outside this library) and the text is then rebuilt with the
//! rendered HTML wrapped in `<data class="katex-src">`, which keeps the
//! source as its value.
use vstd::prelude::*;
use crate::text::{find_from, find_str_from, lemma_find_from, push_char, push_range, replace_str, replaced, sviews, to_chars};

verus! {

broadcast use vstd::string::group_string_axioms;

/// The preprocessor.
pub struct KatexPreprocessor;

impl KatexPreprocessor {
    /// The name mdbook knows the preprocessor by.
    pub fn name(&self) -> (r: &'static str)
        ensures
            r@ == "mdbook-katex"@,
    {
        "mdbook-katex"
    }

    /// Every renderer is supported except the one named `not-supported`.
    pub fn supports_renderer(&self, renderer: &str) -> (r: bool)
        ensures
            r == (renderer@ != "not-supported"@),
    {
        !crate::text::str_eq(renderer, "not-supported")
    }
}

// ───────────────────────── rendered formulas ─────────────────────────

/// The `<data>` element of a rendered formula: its source as the value
/// (quotes and newlines written as entities), the HTML inside.
pub open spec fn katex_data(latex: Seq<char>, html: Seq<char>) -> Seq<char> {
    "<data class=\"katex-src\" value=\""@ + replaced(replaced(latex, "\""@, "&quot;"@), "\n"@, "&#10;"@)
        + "\">"@ + html + "</data>"@
}

/// Appends the `<data>` element of a rendered formula.
fn push_katex_data(out: &mut String, latex: &Vec<char>, html: &str)
    ensures
        final(out)@ == old(out)@ + katex_data(latex@, html@),
{
    proof {
        reveal_strlit("\"");
        reveal_strlit("\n");
    }
    let q = replace_str(latex, "\"", "&quot;");
    let e = replace_str(&q, "\n", "&#10;");
    out.append("<data class=\"katex-src\" value=\"");
    crate::text::push_all(out, &e);
    out.append("\">");
    out.append(html);
    out.append("</data>");
}

/// What stands for a formula KaTeX could not render: its source between
/// its delimiters.
pub open spec fn katex_fallback_text(latex: Seq<char>, display: bool) -> Seq<char> {
    if display {
        "$$"@ + latex + "$$"@
    } else {
        "$"@ + latex + "$"@
    }
}

/// The text kept for a formula KaTeX could not render.
pub fn katex_fallback(latex: &str, display: bool) -> (r: String)
    ensures
        r@ == katex_fallback_text(latex@, display),
{
    let mut r = String::new();
    let d = if display {
        "$$"
    } else {
        "$"
    };
    r.append(d);
    r.append(latex);
    r.append(d);
    r
}

// ───────────────────────── display formulas ─────────────────────────

/// `$$` opens at `i`.
pub open spec fn display_opens(s: Seq<char>, i: int) -> bool {
    0 <= i && i + 1 < s.len() && s[i] == '$' && s[i + 1] == '$'
}

/// From position `i` on, the display formulas in order: the non-empty text
/// between a `$$` and the next `$$`.
pub open spec fn display_formulas_from(s: Seq<char>, i: int) -> Seq<Seq<char>>
    decreases s.len() - i,
{
    if i < 0 || i >= s.len() {
        seq![]
    } else if display_opens(s, i) {
        match find_from(s, seq!['$', '$'], i + 2) {
            Some(j) => {
                proof {
                    lemma_find_from(s, seq!['$', '$'], i + 2);
                }
                if j > i + 2 {
                    seq![s.subrange(i + 2, j)] + display_formulas_from(s, j + 2)
                } else {
                    display_formulas_from(s, j + 2)
                }
            },
            None => seq![],
        }
    } else {
        display_formulas_from(s, i + 1)
    }
}

/// From position `i` on, the text with each display formula replaced by
/// its `<data>` element, the HTML taken in order from `rendered`. An empty
/// `$$$$` becomes `$$`; a `$$` never closed is kept with the rest of the
/// text.
pub open spec fn display_from(s: Seq<char>, i: int, rendered: Seq<Seq<char>>) -> Seq<char>
    decreases s.len() - i,
{
    if i < 0 || i >= s.len() {
        seq![]
    } else if display_opens(s, i) {
        match find_from(s, seq!['$', '$'], i + 2) {
            Some(j) => {
                proof {
                    lemma_find_from(s, seq!['$', '$'], i + 2);
                }
                if j > i + 2 {
                    katex_data(s.subrange(i + 2, j), rendered[0]) + display_from(s, j + 2, rendered.skip(1))
                } else {
                    "$$"@ + display_from(s, j + 2, rendered)
                }
            },
            None => "$$"@ + s.subrange(i + 2, s.len() as int),
        }
    } else {
        seq![s[i]] + display_from(s, i + 1, rendered)
    }
}

/// The display formulas of a text, in order (see `display_formulas_from`).
pub fn display_formulas(content: &str) -> (r: Vec<String>)
    ensures
        sviews(r@) == display_formulas_from(content@, 0),
{
    proof {
        reveal_strlit("$$");
    }
    let s = to_chars(content);
    let dd: Vec<char> = vec!['$', '$'];
    assert(dd@ =~= seq!['$', '$']);
    let mut r: Vec<String> = Vec::new();
    let mut i: usize = 0;
    while i < s.len()
        invariant
            i <= s.len(),
            s@ == content@,
            dd@ == seq!['$', '$'],
            display_formulas_from(s@, 0) == sviews(r@) + display_formulas_from(s@, i as int),
        decreases s.len() - i,
    {
        if s[i] == '$' && s.len() - i > 1 && s[i + 1] == '$' {
            match crate::text::find_from_exec(&s, &dd, i + 2) {
                Some(j) => {
                    proof {
                        lemma_find_from(s@, seq!['$', '$'], i + 2);
                    }
                    if j > i + 2 {
                        let mut f = String::new();
                        push_range(&mut f, &s, i + 2, j);
                        let ghost before = sviews(r@);
                        r.push(f);
                        assert(sviews(r@) =~= before.push(s@.subrange(i + 2, j as int)));
                        assert(before + display_formulas_from(s@, i as int) =~= sviews(r@)
                            + display_formulas_from(s@, j + 2));
                    }
                    i = j + 2;
                },
                None => {
                    assert(display_formulas_from(s@, i as int) =~= seq![]);
                    assert(sviews(r@) + display_formulas_from(s@, i as int) =~= sviews(r@));
                    return r;
                },
            }
        } else {
            i = i + 1;
        }
    }
    assert(sviews(r@) + display_formulas_from(s@, i as int) =~= sviews(r@));
    r
}

/// Replaces each display formula by its `<data>` element, `rendered`
/// holding KaTeX's HTML for the formulas of `display_formulas`, in order.
pub fn process_display_math(content: &str, rendered: &Vec<String>, counter: &mut u64) -> (r: String)
    requires
        rendered.len() == display_formulas_from(content@, 0).len(),
        *old(counter) + rendered.len() <= u64::MAX,
    ensures
        r@ == display_from(content@, 0, sviews(rendered@)),
        *final(counter) == *old(counter) + display_formulas_from(content@, 0).len(),
{
    *counter = *counter + rendered.len() as u64;
    proof {
        reveal_strlit("$$");
    }
    let s = to_chars(content);
    let dd: Vec<char> = vec!['$', '$'];
    assert(dd@ =~= seq!['$', '$']);
    let mut out = String::new();
    let mut i: usize = 0;
    let mut k: usize = 0;
    assert(sviews(rendered@).skip(0) =~= sviews(rendered@));
    while i < s.len()
        invariant
            i <= s.len(),
            k <= rendered.len(),
            s@ == content@,
            dd@ == seq!['$', '$'],
            *counter == *old(counter) + display_formulas_from(content@, 0).len(),
            rendered.len() - k == display_formulas_from(s@, i as int).len(),
            display_from(s@, 0, sviews(rendered@)) == out@ + display_from(
                s@,
                i as int,
                sviews(rendered@).skip(k as int),
            ),
        decreases s.len() - i,
    {
        if s[i] == '$' && s.len() - i > 1 && s[i + 1] == '$' {
            match crate::text::find_from_exec(&s, &dd, i + 2) {
                Some(j) => {
                    proof {
                        lemma_find_from(s@, seq!['$', '$'], i + 2);
                    }
                    if j > i + 2 {
                        let mut f: Vec<char> = Vec::new();
                        crate::text::extend_range(&mut f, &s, i + 2, j);
                        push_katex_data(&mut out, &f, rendered[k].as_str());
                        assert(sviews(rendered@).skip(k as int)[0] == rendered@[k as int]@);
                        assert(sviews(rendered@).skip(k as int).skip(1) =~= sviews(rendered@).skip(k + 1));
                        k = k + 1;
                    } else {
                        out.append("$$");
                    }
                    i = j + 2;
                },
                None => {
                    out.append("$$");
                    push_range(&mut out, &s, i + 2, s.len());
                    return out;
                },
            }
        } else {
            push_char(&mut out, s[i]);
            i = i + 1;
        }
    }
    out
}

// ───────────────────────── inline formulas ─────────────────────────

/// A character after `$` that says it is no formula (a price, a brace, a
/// bracket, punctuation, whitespace…).
pub open spec fn no_math_after(c: char) -> bool {
    c == '{' || c == ' ' || c == '\t' || c == '\n' || ('0' <= c <= '9') || c == ')' || c == '('
        || c == '[' || c == ']' || c == '<' || c == '>' || c == ',' || c == '.' || c == ';' || c
        == ':' || c == '!' || c == '?' || c == '\'' || c == '"'
}

/// A `$` at `i` (not followed by another `$`) opens an inline formula.
pub open spec fn inline_opens(s: Seq<char>, i: int) -> bool {
    0 <= i < s.len() && s[i] == '$' && i + 1 < s.len() && s[i + 1] != '$' && !no_math_after(s[i + 1])
}

/// The first position from `j` on holding `$` or a newline (or the end).
pub open spec fn inline_stop(s: Seq<char>, j: int) -> int
    decreases s.len() - j,
{
    if j < 0 || j >= s.len() {
        if j < 0 {
            0
        } else {
            j
        }
    } else if s[j] == '$' || s[j] == '\n' {
        j
    } else {
        inline_stop(s, j + 1)
    }
}

pub proof fn lemma_inline_stop(s: Seq<char>, j: int)
    requires
        0 <= j <= s.len(),
    ensures
        j <= inline_stop(s, j) <= s.len(),
        inline_stop(s, j) < s.len() ==> (s[inline_stop(s, j)] == '$' || s[inline_stop(s, j)] == '\n'),
        forall|m: int| j <= m < inline_stop(s, j) ==> #[trigger] s[m] != '$' && s[m] != '\n',
    decreases s.len() - j,
{
    if j < s.len() && !(s[j] == '$' || s[j] == '\n') {
        lemma_inline_stop(s, j + 1);
    }
}

/// From position `i` on, the inline formulas in order: the text after an
/// opening `$` up to the next `$` on the same line.
pub open spec fn inline_formulas_from(s: Seq<char>, i: int) -> Seq<Seq<char>>
    decreases s.len() + 1 - i,
{
    if i < 0 || i >= s.len() {
        seq![]
    } else if inline_opens(s, i) {
        let j = inline_stop(s, i + 1);
        proof {
            lemma_inline_stop(s, i + 1);
        }
        if j < s.len() && s[j] == '$' && j > i + 1 {
            seq![s.subrange(i + 1, j)] + inline_formulas_from(s, j + 1)
        } else {
            inline_formulas_from(s, j + 1)
        }
    } else {
        inline_formulas_from(s, i + 1)
    }
}

/// From position `i` on, the text with each inline formula replaced by its
/// `<data>` element, the HTML taken in order from `rendered`. A `$` whose
/// formula runs into a newline or the end is kept with the text read, and
/// the newline, where one ended it, is put back.
pub open spec fn inline_from(s: Seq<char>, i: int, rendered: Seq<Seq<char>>) -> Seq<char>
    decreases s.len() + 1 - i,
{
    if i < 0 || i >= s.len() {
        seq![]
    } else if inline_opens(s, i) {
        let j = inline_stop(s, i + 1);
        proof {
            lemma_inline_stop(s, i + 1);
        }
        let inner = s.subrange(i + 1, j);
        if j < s.len() && s[j] == '$' {
            if inner.len() > 0 {
                katex_data(inner, rendered[0]) + inline_from(s, j + 1, rendered.skip(1))
            } else {
                "$"@ + inline_from(s, j + 1, rendered)
            }
        } else if j < s.len() {
            "$"@ + inner + "\n"@ + inline_from(s, j + 1, rendered)
        } else {
            "$"@ + inner
        }
    } else {
        seq![s[i]] + inline_from(s, i + 1, rendered)
    }
}

/// Whether the character after a `$` says it is no formula.
fn no_math_after_exec(c: char) -> (r: bool)
    ensures
        r == no_math_after(c),
{
    c == '{' || c == ' ' || c == '\t' || c == '\n' || ('0' <= c && c <= '9') || c == ')' || c
        == '(' || c == '[' || c == ']' || c == '<' || c == '>' || c == ',' || c == '.' || c == ';'
        || c == ':' || c == '!' || c == '?' || c == '\'' || c == '"'
}

/// Decides `inline_opens`.
fn inline_opens_exec(s: &Vec<char>, i: usize) -> (r: bool)
    requires
        i < s.len(),
    ensures
        r == inline_opens(s@, i as int),
{
    s[i] == '$' && s.len() - i > 1 && s[i + 1] != '$' && !no_math_after_exec(s[i + 1])
}

/// Computes `inline_stop`.
fn inline_stop_exec(s: &Vec<char>, j: usize) -> (r: usize)
    requires
        j <= s.len(),
    ensures
        r == inline_stop(s@, j as int),
{
    let mut m = j;
    while m < s.len() && s[m] != '$' && s[m] != '\n'
        invariant
            j <= m <= s.len(),
            inline_stop(s@, j as int) == inline_stop(s@, m as int),
        decreases s.len() - m,
    {
        m = m + 1;
    }
    m
}

/// The inline formulas of a text, in order (see `inline_formulas_from`).
pub fn inline_formulas(content: &str) -> (r: Vec<String>)
    ensures
        sviews(r@) == inline_formulas_from(content@, 0),
{
    let s = to_chars(content);
    let mut r: Vec<String> = Vec::new();
    let mut i: usize = 0;
    while i < s.len()
        invariant
            i <= s.len(),
            s@ == content@,
            inline_formulas_from(s@, 0) == sviews(r@) + inline_formulas_from(s@, i as int),
        decreases s.len() - i,
    {
        if inline_opens_exec(&s, i) {
            let j = inline_stop_exec(&s, i + 1);
            proof {
                lemma_inline_stop(s@, i + 1);
            }
            if j < s.len() && s[j] == '$' && j > i + 1 {
                let mut f = String::new();
                push_range(&mut f, &s, i + 1, j);
                let ghost before = sviews(r@);
                r.push(f);
                assert(sviews(r@) =~= before.push(s@.subrange(i + 1, j as int)));
                assert(before + inline_formulas_from(s@, i as int) =~= sviews(r@)
                    + inline_formulas_from(s@, j + 1));
            }
            if j < s.len() {
                i = j + 1;
            } else {
                assert(inline_formulas_from(s@, j + 1) =~= seq![]);
                assert(sviews(r@) + inline_formulas_from(s@, i as int) =~= sviews(r@));
                return r;
            }
        } else {
            i = i + 1;
        }
    }
    assert(sviews(r@) + inline_formulas_from(s@, i as int) =~= sviews(r@));
    r
}

/// Replaces each inline formula by its `<data>` element, `rendered`
/// holding KaTeX's HTML for the formulas of `inline_formulas`, in order.
pub fn process_inline_math(content: &str, rendered: &Vec<String>, counter: &mut u64) -> (r: String)
    requires
        rendered.len() == inline_formulas_from(content@, 0).len(),
        *old(counter) + rendered.len() <= u64::MAX,
    ensures
        r@ == inline_from(content@, 0, sviews(rendered@)),
        *final(counter) == *old(counter) + inline_formulas_from(content@, 0).len(),
{
    *counter = *counter + rendered.len() as u64;
    proof {
        reveal_strlit("$");
        reveal_strlit("\n");
    }
    let s = to_chars(content);
    let mut out = String::new();
    let mut i: usize = 0;
    let mut k: usize = 0;
    assert(sviews(rendered@).skip(0) =~= sviews(rendered@));
    while i < s.len()
        invariant
            i <= s.len(),
            k <= rendered.len(),
            s@ == content@,
            *counter == *old(counter) + inline_formulas_from(content@, 0).len(),
            rendered.len() - k == inline_formulas_from(s@, i as int).len(),
            inline_from(s@, 0, sviews(rendered@)) == out@ + inline_from(
                s@,
                i as int,
                sviews(rendered@).skip(k as int),
            ),
        decreases s.len() - i,
    {
        if inline_opens_exec(&s, i) {
            let j = inline_stop_exec(&s, i + 1);
            proof {
                lemma_inline_stop(s@, i + 1);
            }
            if j < s.len() && s[j] == '$' {
                if j > i + 1 {
                    let mut f: Vec<char> = Vec::new();
                    crate::text::extend_range(&mut f, &s, i + 1, j);
                    push_katex_data(&mut out, &f, rendered[k].as_str());
                    assert(sviews(rendered@).skip(k as int)[0] == rendered@[k as int]@);
                    assert(sviews(rendered@).skip(k as int).skip(1) =~= sviews(rendered@).skip(k + 1));
                    k = k + 1;
                } else {
                    out.append("$");
                }
            } else {
                out.append("$");
                push_range(&mut out, &s, i + 1, j);
                if j < s.len() {
                    out.append("\n");
                }
            }
            if j < s.len() {
                i = j + 1;
            } else {
                assert(inline_from(s@, j + 1, sviews(rendered@).skip(k as int)) =~= seq![]);
                assert(out@ + inline_from(s@, j + 1, sviews(rendered@).skip(k as int)) =~= out@);
                return out;
            }
        } else {
            push_char(&mut out, s[i]);
            i = i + 1;
        }
    }
    out
}

proof fn lemma_no_inline_from(s: Seq<char>, i: int)
    requires
        0 <= i,
        forall|m: int| i <= m < s.len() - 1 ==> #[trigger] s[m] != '$',
    ensures
        inline_formulas_from(s, i) == Seq::<Seq<char>>::empty(),
    decreases s.len() + 1 - i,
{
    if i < s.len() {
        assert(!inline_opens(s, i));
        lemma_no_inline_from(s, i + 1);
    }
}

/// A `$` that is not followed by another `$` opens an inline formula
/// exactly when the next character is none of `{`, whitespace, a digit,
/// brackets, `<`, `>` and punctuation; so `$c…$` on one line (and `$\alpha$`
/// in particular) is one formula, its text between the two `$`, unless `c`
/// is such a character, and then there is none.
pub proof fn law_inline_formula_opens(c: char, t: Seq<char>)
    requires
        c != '$',
        forall|i: int| 0 <= i < t.len() ==> #[trigger] t[i] != '$' && t[i] != '\n',
    ensures
        ({
            let s = seq!['$', c] + t + seq!['$'];
            let listed = c == '{' || c == ' ' || c == '\t' || c == '\n' || ('0' <= c <= '9') || c == ')'
                || c == '(' || c == '[' || c == ']' || c == '<' || c == '>' || c == ',' || c == '.' || c
                == ';' || c == ':' || c == '!' || c == '?' || c == '\'' || c == '"';
            inline_formulas_from(s, 0) == if listed {
                Seq::<Seq<char>>::empty()
            } else {
                seq![seq![c] + t]
            }
        }),
{
    let s = seq!['$', c] + t + seq!['$'];
    let n = s.len() as int;
    assert(s[0] == '$' && s[1] == c && s[n - 1] == '$');
    assert forall|m: int| 2 <= m < n - 1 implies #[trigger] s[m] == t[m - 2] by {}
    if no_math_after(c) {
        assert(!inline_opens(s, 0));
        lemma_no_inline_from(s, 1);
    } else {
        assert(inline_opens(s, 0));
        lemma_inline_stop(s, 1);
        let j = inline_stop(s, 1);
        if j < n - 1 {
            if j >= 2 {
                assert(s[j] == t[j - 2]);
            }
        }
        if j == n {
            assert(s[n - 1] != '$');
        }
        assert(j == n - 1);
        assert(s.subrange(1, n - 1) =~= seq![c] + t);
        assert(inline_formulas_from(s, n) == Seq::<Seq<char>>::empty());
    }
}

// ───────────────────────── laws ─────────────────────────

proof fn lemma_no_dollar_from(s: Seq<char>, k: int, d: Seq<Seq<char>>)
    requires
        0 <= k <= s.len(),
        forall|j: int| 0 <= j < s.len() ==> #[trigger] s[j] != '$',
    ensures
        display_from(s, k, d) == s.skip(k),
        inline_from(s, k, d) == s.skip(k),
        display_formulas_from(s, k) == Seq::<Seq<char>>::empty(),
        inline_formulas_from(s, k) == Seq::<Seq<char>>::empty(),
    decreases s.len() - k,
{
    if k < s.len() {
        lemma_no_dollar_from(s, k + 1, d);
        assert(s.skip(k) =~= seq![s[k]] + s.skip(k + 1));
    } else {
        assert(s.skip(k) =~= Seq::<char>::empty());
    }
}

/// A text with no `$` holds no formula, and both passes leave it as it is.
pub proof fn law_no_dollar_no_change(s: Seq<char>, rendered: Seq<Seq<char>>)
    requires
        forall|j: int| 0 <= j < s.len() ==> #[trigger] s[j] != '$',
    ensures
        display_formulas_from(s, 0).len() == 0,
        inline_formulas_from(s, 0).len() == 0,
        display_from(s, 0, rendered) == s,
        inline_from(s, 0, rendered) == s,
{
    lemma_no_dollar_from(s, 0, rendered);
    assert(s.skip(0) =~= s);
}

} // verus!
