//! The LaTeX source of a TikZ diagram. The template supplies the
//! `standalone` class and the `tikz` package; the input is one of three
//! shapes:
//!
//! 1. a whole document with a class other than `standalone`: that class is
//!    kept (so that articles and reports lay out over several pages);
//! 2. a whole `standalone` document, or one with no class: its class line
//!    is dropped and the rest inserted after the template's header;
//! 3. a bare TikZ snippet: its preamble commands are moved before
//!    `\begin{document}` and the rest wrapped in the document environment.
use vstd::prelude::*;
use crate::pattern::{opt_string_view, regex_find, regex_first_match, regex_replace_all, regex_replaced_all};
use crate::text::{
    contains, contains_str, drop_blank_lines, drop_blank_lines_exec, ends_with, lemma_line_end,
    line_at, line_end, next_line, push_all, skip_ws_back_exec, skip_ws_exec, starts_with,
    starts_with_str, to_chars, trim, trim_end, trim_range, trim_start,
};

verus! {

broadcast use vstd::string::group_string_axioms;

/// The head of the `standalone` template.
pub const HEADER_STANDALONE: &'static str = "\\documentclass[margin=0pt]{standalone}\n\\usepackage{tikz}\n";

/// The `\documentclass` line that `extract_documentclass` finds (an
/// optional `%` comment may follow the class).
pub const DOCUMENTCLASS_LINE: &'static str = "(?m)^\\s*\\\\documentclass(?:\\[.*?\\])?\\{[^}]*\\}(?:\\s*%.*)?$";

/// The `\documentclass` lines that `strip_documentclass` removes.
pub const DOCUMENTCLASS_LINES: &'static str = "(?m)^\\s*\\\\documentclass(?:\\[.*?\\])?\\{.*?\\}(?:\\s*%.*)?$";

// ───────────────────────── the class line ─────────────────────────

/// The user's `\documentclass[...]{...}` line, trimmed, if there is one.
pub open spec fn documentclass_of(input: Seq<char>) -> Option<Seq<char>> {
    match regex_first_match(DOCUMENTCLASS_LINE@, input) {
        Some(m) => Some(trim(m)),
        None => None,
    }
}

/// Finds the user's `\documentclass` line (options and a trailing `%`
/// comment included), trimmed.
pub fn extract_documentclass(input: &str) -> (r: Option<String>)
    ensures
        opt_string_view(r) == documentclass_of(input@),
{
    match regex_find(DOCUMENTCLASS_LINE, input) {
        Some(m) => {
            let cs = to_chars(m.as_str());
            let (a, b) = trim_range(&cs, 0, cs.len());
            assert(cs@.subrange(0, cs@.len() as int) =~= cs@);
            let mut t = String::new();
            crate::text::push_range(&mut t, &cs, a, b);
            Some(t)
        },
        None => None,
    }
}

/// The input without its `\documentclass` lines and without blank lines.
pub open spec fn documentclass_stripped(input: Seq<char>) -> Seq<char> {
    drop_blank_lines(regex_replaced_all(DOCUMENTCLASS_LINES@, input, ""@))
}

/// Removes the `\documentclass` lines, then the blank lines (the lines kept
/// are joined by `'\n'`, with no newline at the end).
pub fn strip_documentclass(input: &str) -> (r: String)
    ensures
        r@ == documentclass_stripped(input@),
        r@.len() <= input@.len(),
{
    proof {
        reveal_strlit("");
    }
    let replaced = regex_replace_all(DOCUMENTCLASS_LINES, input, "");
    let cs = to_chars(replaced.as_str());
    let kept = drop_blank_lines_exec(&cs);
    crate::text::from_chars(&kept)
}

// ───────────────────────── the preamble of a snippet ─────────────────────────

/// A (left-trimmed) line opens a preamble command.
pub open spec fn preamble_cmd(t: Seq<char>) -> bool {
    starts_with(t, "\\usepackage"@) || starts_with(t, "\\RequirePackage"@) || starts_with(
        t,
        "\\usetikzlibrary"@,
    ) || starts_with(t, "\\pgfplotsset"@) || starts_with(t, "\\tikzset"@) || starts_with(
        t,
        "\\definecolor"@,
    ) || starts_with(t, "\\colorlet"@) || starts_with(t, "\\newcommand"@) || starts_with(
        t,
        "\\renewcommand"@,
    ) || starts_with(t, "\\providecommand"@) || starts_with(t, "\\newenvironment"@) || starts_with(
        t,
        "\\renewenvironment"@,
    ) || starts_with(t, "\\newlength"@) || starts_with(t, "\\newsavebox"@) || starts_with(
        t,
        "\\newcount"@,
    ) || starts_with(t, "\\newdimen"@) || starts_with(t, "\\pgfdeclarelayer"@) || starts_with(
        t,
        "\\pgfsetlayers"@,
    ) || starts_with(t, "\\input"@) || starts_with(t, "\\include"@) || starts_with(
        t,
        "\\graphicspath"@,
    ) || starts_with(t, "\\addbibresource"@)
}

/// Whether a left-trimmed line opens a preamble command.
fn is_preamble_cmd(t: &Vec<char>) -> (r: bool)
    ensures
        r == preamble_cmd(t@),
{
    starts_with_str(t, "\\usepackage") || starts_with_str(t, "\\RequirePackage") || starts_with_str(
        t,
        "\\usetikzlibrary",
    ) || starts_with_str(t, "\\pgfplotsset") || starts_with_str(t, "\\tikzset") || starts_with_str(
        t,
        "\\definecolor",
    ) || starts_with_str(t, "\\colorlet") || starts_with_str(t, "\\newcommand") || starts_with_str(
        t,
        "\\renewcommand",
    ) || starts_with_str(t, "\\providecommand") || starts_with_str(t, "\\newenvironment")
        || starts_with_str(t, "\\renewenvironment") || starts_with_str(t, "\\newlength")
        || starts_with_str(t, "\\newsavebox") || starts_with_str(t, "\\newcount") || starts_with_str(
        t,
        "\\newdimen",
    ) || starts_with_str(t, "\\pgfdeclarelayer") || starts_with_str(t, "\\pgfsetlayers")
        || starts_with_str(t, "\\input") || starts_with_str(t, "\\include") || starts_with_str(
        t,
        "\\graphicspath",
    ) || starts_with_str(t, "\\addbibresource")
}

/// The net brace depth of a text: one per `{`, minus one per `}`.
pub open spec fn braces(s: Seq<char>) -> int
    decreases s.len(),
{
    if s.len() == 0 {
        0
    } else {
        braces(s.drop_last()) + if s.last() == '{' {
            1int
        } else if s.last() == '}' {
            -1int
        } else {
            0int
        }
    }
}

/// Counts the net brace depth of a line.
pub fn count_braces(line: &str) -> (r: i32)
    requires
        line@.len() <= i32::MAX,
    ensures
        r == braces(line@),
        -line@.len() <= r <= line@.len(),
{
    let cs = to_chars(line);
    let mut depth: i32 = 0;
    let mut i: usize = 0;
    while i < cs.len()
        invariant
            i <= cs.len() == line@.len() <= i32::MAX,
            cs@ == line@,
            depth == braces(cs@.take(i as int)),
            -i <= depth <= i,
        decreases cs.len() - i,
    {
        assert(cs@.take(i + 1).drop_last() =~= cs@.take(i as int));
        if cs[i] == '{' {
            depth = depth + 1;
        } else if cs[i] == '}' {
            depth = depth - 1;
        }
        i = i + 1;
    }
    assert(cs@.take(cs.len() as int) =~= cs@);
    depth
}

/// The state of the line-by-line split.
pub struct PreambleState {
    /// Lines moved before the document.
    pub preamble: Seq<char>,
    /// Lines kept in the document.
    pub body: Seq<char>,
    /// Inside a preamble command that is not finished yet.
    pub in_block: bool,
    /// Past the first `\begin{…}`: everything else is body.
    pub in_env: bool,
    /// Brace depth of the open preamble command.
    pub depth: int,
}

/// One line of the split. A preamble command goes on over the next lines
/// until its braces balance on a line that does not end with `%` (TeX's line
/// continuation).
pub open spec fn preamble_step(st: PreambleState, line: Seq<char>) -> PreambleState {
    let t = trim_start(line);
    if st.in_env || starts_with(t, "\\begin{"@) {
        PreambleState { body: st.body + line + "\n"@, in_env: true, ..st }
    } else if preamble_cmd(t) || st.in_block {
        let depth = (if st.in_block {
            st.depth
        } else {
            0
        }) + braces(line);
        let closes = depth <= 0 && !ends_with(trim_end(line), "%"@);
        PreambleState {
            preamble: st.preamble + line + "\n"@,
            in_block: !closes,
            depth: if closes {
                0
            } else {
                depth
            },
            ..st
        }
    } else {
        PreambleState { body: st.body + line + "\n"@, ..st }
    }
}

/// The split from position `p` on, in state `st`.
pub open spec fn preamble_from(s: Seq<char>, p: int, st: PreambleState) -> PreambleState
    decreases s.len() + 1 - p,
{
    if p < 0 || p >= s.len() {
        st
    } else {
        proof {
            lemma_line_end(s, p);
        }
        preamble_from(s, line_end(s, p) + 1, preamble_step(st, line_at(s, p)))
    }
}

/// The preamble commands of a snippet and the rest of it, each line
/// followed by `'\n'`.
pub open spec fn preamble_split(content: Seq<char>) -> (Seq<char>, Seq<char>) {
    let st = preamble_from(
        content,
        0,
        PreambleState { preamble: seq![], body: seq![], in_block: false, in_env: false, depth: 0 },
    );
    (st.preamble, st.body)
}

/// Separates the preamble commands of a bare snippet from its body.
pub fn split_preamble(content: &str) -> (r: (String, String))
    requires
        content@.len() <= i32::MAX,
    ensures
        (r.0@, r.1@) == preamble_split(content@),
{
    proof {
        reveal_strlit("\n");
        reveal_strlit("%");
        reveal_strlit("{");
    }
    let s = to_chars(content);
    let mut preamble = String::new();
    let mut body = String::new();
    let mut in_block = false;
    let mut in_env = false;
    let mut depth: i32 = 0;
    let mut p: usize = 0;
    while p < s.len()
        invariant
            p <= s.len() <= i32::MAX,
            s@ == content@,
            -p <= depth <= p,
            preamble_split(s@) == ({
                let st = preamble_from(
                    s@,
                    p as int,
                    PreambleState {
                        preamble: preamble@,
                        body: body@,
                        in_block: in_block,
                        in_env: in_env,
                        depth: depth as int,
                    },
                );
                (st.preamble, st.body)
            }),
        decreases s.len() - p,
    {
        proof {
            reveal_strlit("\n");
            reveal_strlit("%");
            reveal_strlit("{");
        }
        let ghost st0 = PreambleState {
            preamble: preamble@,
            body: body@,
            in_block: in_block,
            in_env: in_env,
            depth: depth as int,
        };
        let (ce, le) = next_line(&s, p);
        let mut line: Vec<char> = Vec::new();
        crate::text::extend_range(&mut line, &s, p, ce);
        let a = skip_ws_exec(&line, 0);
        proof {
            crate::text::lemma_skip_ws(line@, 0);
        }
        let mut t: Vec<char> = Vec::new();
        crate::text::extend_range(&mut t, &line, a, line.len());
        assert(t@ =~= trim_start(line@));
        let ghost next = preamble_step(st0, line@);
        if in_env || starts_with_str(&t, "\\begin{") {
            in_env = true;
            push_all(&mut body, &line);
            body.append("\n");
        } else if is_preamble_cmd(&t) || in_block {
            let base: i32 = if in_block {
                depth
            } else {
                0
            };
            push_all(&mut preamble, &line);
            preamble.append("\n");
            let line_s = crate::text::from_chars(&line);
            let nb = count_braces(line_s.as_str());
            let d = base + nb;
            let e = skip_ws_back_exec(&line, 0, line.len());
            proof {
                crate::text::lemma_skip_ws_back(line@, 0, line@.len() as int);
            }
            let continues = e > 0 && line[e - 1] == '%';
            assert(continues == ends_with(trim_end(line@), "%"@)) by {
                let x = line@.take(e as int);
                assert(trim_end(line@) == x);
                assert("%"@ =~= seq!['%']);
                if e > 0 {
                    assert(x.skip(x.len() - 1) =~= seq![line@[e - 1]]);
                    if line@[e - 1] != '%' {
                        assert(x.skip(x.len() - 1)[0] != "%"@[0]);
                    }
                }
            }
            if d <= 0 && !continues {
                in_block = false;
                depth = 0;
            } else {
                in_block = true;
                depth = d;
            }
        } else {
            push_all(&mut body, &line);
            body.append("\n");
        }
        let ghost p0 = p as int;
        p = if le < s.len() {
            le + 1
        } else {
            le
        };
        proof {
            lemma_line_end(s@, p0);
            let st1 = PreambleState {
                preamble: preamble@,
                body: body@,
                in_block: in_block,
                in_env: in_env,
                depth: depth as int,
            };
            assert(st1.preamble =~= next.preamble);
            assert(st1.body =~= next.body);
            assert(st1 == next);
            assert(preamble_from(s@, p0, st0) == preamble_from(s@, line_end(s@, p0) + 1, next));
        }
    }
    (preamble, body)
}

// ───────────────────────── the whole source ─────────────────────────

/// The LaTeX source compiled for a diagram, given the input with its class
/// lines stripped and the class line found in it.
pub open spec fn tikz_source(stripped: Seq<char>, class: Option<Seq<char>>) -> Seq<char> {
    if contains(stripped, "\\begin{document}"@) {
        match class {
            Some(c) => if !contains(c, "standalone"@) {
                c + "\n\\usepackage{tikz}\n"@ + stripped + "\n"@
            } else {
                HEADER_STANDALONE@ + stripped + "\n"@
            },
            None => HEADER_STANDALONE@ + stripped + "\n"@,
        }
    } else {
        let (preamble, body) = preamble_split(stripped);
        HEADER_STANDALONE@ + preamble + "\\begin{document}\n"@ + body + "\\end{document}\n"@
    }
}

/// Puts the source together from the stripped input and its class line
/// (see `tikz_source`).
pub fn assemble_source(stripped: &str, class: Option<&str>) -> (r: String)
    requires
        stripped@.len() <= i32::MAX,
    ensures
        r@ == tikz_source(
            stripped@,
            match class {
                Some(c) => Some(c@),
                None => None,
            },
        ),
{
    let s = to_chars(stripped);
    if contains_str(&s, "\\begin{document}") {
        let mut r = String::new();
        match class {
            Some(c) => {
                let cc = to_chars(c);
                if !contains_str(&cc, "standalone") {
                    r.append(c);
                    r.append("\n\\usepackage{tikz}\n");
                } else {
                    r.append(HEADER_STANDALONE);
                }
            },
            None => {
                r.append(HEADER_STANDALONE);
            },
        }
        r.append(stripped);
        r.append("\n");
        r
    } else {
        let (preamble, body) = split_preamble(stripped);
        let mut r = String::new();
        r.append(HEADER_STANDALONE);
        r.append(preamble.as_str());
        r.append("\\begin{document}\n");
        r.append(body.as_str());
        r.append("\\end{document}\n");
        r
    }
}

/// The LaTeX source handed to the TeX engine for a diagram's input.
pub fn build_source(input: &str) -> (r: String)
    requires
        input@.len() <= i32::MAX,
    ensures
        r@ == tikz_source(documentclass_stripped(input@), documentclass_of(input@)),
{
    let stripped = strip_documentclass(input);
    let class = extract_documentclass(input);
    match class {
        Some(c) => assemble_source(stripped.as_str(), Some(c.as_str())),
        None => assemble_source(stripped.as_str(), None),
    }
}

} // verus!
