//! mdbook-pikchr: Pikchr diagrams rendered to inline SVG.
//!
//! The chapter is scanned for fenced blocks whose info string starts with
//! `pikchr`; everything else is copied as it stands. Drawing a diagram is a
//! call into the Pikchr C library, made by the caller: `pikchr_blocks`
//! lists the diagrams in order, and `process_content` rebuilds the chapter
//! from the caller's results.
use vstd::prelude::*;
use crate::text::{
    contains, contains_str, find_from, find_from_exec, lemma_find_from, line_end, match_at, push_range,
    starts_with, strip_prefixes, to_chars, trim, trim_range,
};

verus! {

broadcast use vstd::string::group_string_axioms;

/// The preprocessor.
pub struct PikchrPreprocessor;

impl PikchrPreprocessor {
    /// The name mdbook knows the preprocessor by.
    pub fn name(&self) -> (r: &'static str)
        ensures
            r@ == "mdbook-pikchr"@,
    {
        "mdbook-pikchr"
    }

    /// Every renderer is supported except the one named `not-supported`.
    pub fn supports_renderer(&self, renderer: &str) -> (r: bool)
        ensures
            r == (renderer@ != "not-supported"@),
    {
        !crate::text::str_eq(renderer, "not-supported")
    }
}

/// Three backticks.
pub open spec fn backticks() -> Seq<char> {
    seq!['`', '`', '`']
}

/// The position after the first three backticks at or after `i`; 0 when
/// there are none.
pub open spec fn closing_fence_from(s: Seq<char>, i: int) -> int {
    match find_from(s, backticks(), i) {
        Some(k) => k + 3,
        None => 0,
    }
}

/// Finds the end of the closing fence of a block whose content starts at
/// `start` (see `closing_fence_from`).
pub fn find_closing_fence(s: &Vec<char>, start: usize) -> (r: usize)
    ensures
        r == closing_fence_from(s@, start as int),
{
    let f: Vec<char> = vec!['`', '`', '`'];
    assert(f@ =~= backticks());
    proof {
        lemma_find_from(s@, backticks(), start as int);
    }
    match find_from_exec(s, &f, start) {
        Some(k) => {
            assert(match_at(s@, backticks(), k as int));
            assert(k + 3 <= s.len());
            k + 3
        },
        None => 0,
    }
}

/// The position of the newline that ends the line running on at `i` (for
/// `"\r\n"`, the `'\n'`); the last position when there is none.
pub open spec fn line_end_from(s: Seq<char>, i: int) -> int
    decreases s.len() - i,
{
    if i < 0 || i >= s.len() {
        s.len() - 1
    } else if s[i] == '\n' {
        i
    } else if s[i] == '\r' && i + 1 < s.len() && s[i + 1] == '\n' {
        i + 1
    } else {
        line_end_from(s, i + 1)
    }
}

/// Finds the end of the line running on at `start` (see `line_end_from`).
pub fn find_line_end(s: &Vec<char>, start: usize) -> (r: usize)
    requires
        s.len() > 0,
    ensures
        r == line_end_from(s@, start as int),
{
    let mut i = start;
    while i < s.len()
        invariant
            start <= i,
            s.len() > 0,
            line_end_from(s@, start as int) == line_end_from(s@, i as int),
        decreases s.len() - i,
    {
        if s[i] == '\n' {
            return i;
        }
        if s[i] == '\r' && s.len() - i > 1 && s[i + 1] == '\n' {
            return i + 1;
        }
        i = i + 1;
    }
    s.len() - 1
}


// ───────────────────────── the chapter scan ─────────────────────────

/// `pikchr`, the info string a diagram block starts with.
pub open spec fn pikchr_word() -> Seq<char> {
    seq!['p', 'i', 'k', 'c', 'h', 'r']
}

/// From `p` on, past every `'\n'` and `'\r'`.
pub open spec fn skip_line_breaks(s: Seq<char>, p: int) -> int
    decreases s.len() - p,
{
    if 0 <= p < s.len() && (s[p] == '\n' || s[p] == '\r') {
        skip_line_breaks(s, p + 1)
    } else {
        p
    }
}

/// The text of a diagram block whose body starts at `start` and whose
/// closing fence ends at `fence_end` (0: never closed): the body without
/// the line break before the closing fence; empty when never closed.
pub open spec fn block_text(s: Seq<char>, start: int, fence_end: int) -> Seq<char> {
    if fence_end > start {
        let ce0 = fence_end - 3;
        let ce1 = if ce0 > start && s[ce0 - 1] == '\n' {
            ce0 - 1
        } else {
            ce0
        };
        let ce = if ce1 < ce0 && ce1 > start && s[ce1 - 1] == '\r' {
            ce1 - 1
        } else {
            ce1
        };
        if start < ce {
            s.subrange(start, ce)
        } else {
            seq![]
        }
    } else {
        seq![]
    }
}

/// What the scan does at position `p`.
pub enum PikchrStep {
    /// Copies the text up to the given position and goes on from there.
    Copy(int),
    /// Copies the rest of the text and stops.
    CopyRest,
    /// A diagram block, with its text and the alignment written after
    /// `pikchr`; the scan goes on where the block ends, or, for a block
    /// never closed, copies the rest of the text from the block's fence on
    /// and stops.
    Block(Seq<char>, Seq<char>, Option<int>),
    /// A fence that ends the text exactly: the scan makes no progress and
    /// never ends.
    Stuck,
}

/// The step of the scan at position `p`: a fence with more text after it
/// opens a block (a diagram when its trimmed info string starts with
/// `pikchr`, otherwise its fence line is copied); elsewhere the text up to
/// the next fence is copied.
pub open spec fn pikchr_step(s: Seq<char>, p: int) -> PikchrStep {
    if p + 3 < s.len() && match_at(s, backticks(), p) {
        let info_end = line_end(s, p + 3);
        let info = trim(s.subrange(p + 3, info_end));
        if starts_with(info, pikchr_word()) {
            let align = trim(strip_prefixes(info, pikchr_word()));
            let start = if info_end < s.len() {
                info_end + 1
            } else {
                info_end
            };
            let fe = closing_fence_from(s, start);
            PikchrStep::Block(
                block_text(s, start, fe),
                align,
                if fe > 0 {
                    Some(skip_line_breaks(s, fe))
                } else {
                    None
                },
            )
        } else {
            PikchrStep::Copy(line_end_from(s, info_end) + 1)
        }
    } else {
        match find_from(s, backticks(), p) {
            Some(k) => if k > p {
                PikchrStep::Copy(k)
            } else {
                PikchrStep::Stuck
            },
            None => PikchrStep::CopyRest,
        }
    }
}

pub proof fn lemma_skip_line_breaks(s: Seq<char>, p: int)
    requires
        0 <= p <= s.len(),
    ensures
        p <= skip_line_breaks(s, p) <= s.len(),
    decreases s.len() - p,
{
    if 0 <= p < s.len() && (s[p] == '\n' || s[p] == '\r') {
        lemma_skip_line_breaks(s, p + 1);
    }
}

pub proof fn lemma_line_end_from(s: Seq<char>, i: int)
    requires
        0 <= i,
        s.len() > 0,
    ensures
        i <= s.len() ==> line_end_from(s, i) < s.len(),
        i < s.len() ==> i <= line_end_from(s, i),
    decreases s.len() - i,
{
    if i < s.len() && s[i] != '\n' && !(s[i] == '\r' && i + 1 < s.len() && s[i + 1] == '\n') {
        lemma_line_end_from(s, i + 1);
    }
}

/// Every step moves forward, within the text.
pub proof fn lemma_pikchr_step(s: Seq<char>, p: int)
    requires
        0 <= p < s.len(),
    ensures
        match pikchr_step(s, p) {
            PikchrStep::Copy(e) => p < e <= s.len(),
            PikchrStep::Block(_, _, Some(n)) => p < n <= s.len(),
            _ => true,
        },
{
    lemma_find_from(s, backticks(), p);
    if p + 3 < s.len() && match_at(s, backticks(), p) {
        crate::text::lemma_line_end(s, p + 3);
        let info_end = line_end(s, p + 3);
        let start = if info_end < s.len() {
            info_end + 1
        } else {
            info_end
        };
        lemma_find_from(s, backticks(), start);
        let fe = closing_fence_from(s, start);
        if fe > 0 {
            lemma_skip_line_breaks(s, fe);
        }
        lemma_line_end_from(s, info_end);
    }
}

/// The diagram blocks from `p` on, each with its alignment, in order.
pub open spec fn blocks_from(s: Seq<char>, p: int) -> Seq<(Seq<char>, Seq<char>)>
    decreases s.len() - p,
{
    if p < 0 || p >= s.len() {
        seq![]
    } else {
        proof {
            lemma_pikchr_step(s, p);
        }
        match pikchr_step(s, p) {
            PikchrStep::Copy(e) => blocks_from(s, e),
            PikchrStep::Block(b, a, next) => seq![(b, a)] + match next {
                Some(n) => blocks_from(s, n),
                None => seq![],
            },
            _ => seq![],
        }
    }
}

/// The scan from `p` on reaches a fence that ends the text, where it
/// makes no progress and never ends.
pub open spec fn stuck_from(s: Seq<char>, p: int) -> bool
    decreases s.len() - p,
{
    if p < 0 || p >= s.len() {
        false
    } else {
        proof {
            lemma_pikchr_step(s, p);
        }
        match pikchr_step(s, p) {
            PikchrStep::Copy(e) => stuck_from(s, e),
            PikchrStep::Block(_, _, Some(n)) => stuck_from(s, n),
            PikchrStep::Stuck => true,
            _ => false,
        }
    }
}

/// What stands for a diagram: its SVG and a blank line, or, when it could
/// not be drawn, its text in a `<pre><code>` element.
pub open spec fn diagram_text(rendered: Option<Seq<char>>, block: Seq<char>) -> Seq<char> {
    match rendered {
        Some(svg) => svg + "\n\n"@,
        None => "<pre><code class=\"language-pikchr\">"@ + block + "</code></pre>\n"@,
    }
}

/// The chapter from `p` on with each diagram block replaced by what stands
/// for it, the drawings taken in order from `rendered`.
pub open spec fn pikchr_from(s: Seq<char>, p: int, rendered: Seq<Option<Seq<char>>>) -> Seq<char>
    decreases s.len() - p,
{
    if p < 0 || p >= s.len() {
        seq![]
    } else {
        proof {
            lemma_pikchr_step(s, p);
        }
        match pikchr_step(s, p) {
            PikchrStep::Copy(e) => s.subrange(p, e) + pikchr_from(s, e, rendered),
            PikchrStep::CopyRest => s.subrange(p, s.len() as int),
            PikchrStep::Block(b, _, next) => diagram_text(rendered[0], b) + match next {
                Some(n) => pikchr_from(s, n, rendered.skip(1)),
                None => s.subrange(p, s.len() as int),
            },
            PikchrStep::Stuck => seq![],
        }
    }
}

/// The views of drawing results.
pub open spec fn rendered_views(r: Seq<Option<String>>) -> Seq<Option<Seq<char>>> {
    r.map_values(|o: Option<String>| match o {
        Some(x) => Some(x@),
        None => None,
    })
}


// ───────────────────────── the scan, computed ─────────────────────────

/// A step of the scan, with the diagram's text and alignment as ranges of
/// the chapter.
enum Step {
    Copy(usize),
    CopyRest,
    Block(usize, usize, usize, usize, Option<usize>),
    Stuck,
}

spec fn step_view(s: Seq<char>, st: Step) -> PikchrStep {
    match st {
        Step::Copy(e) => PikchrStep::Copy(e as int),
        Step::CopyRest => PikchrStep::CopyRest,
        Step::Block(a, b, c, d, n) => PikchrStep::Block(
            s.subrange(a as int, b as int),
            s.subrange(c as int, d as int),
            match n {
                Some(x) => Some(x as int),
                None => None,
            },
        ),
        Step::Stuck => PikchrStep::Stuck,
    }
}

spec fn step_ranges_ok(n: nat, st: Step) -> bool {
    match st {
        Step::Block(a, b, c, d, _) => a <= b <= n && c <= d <= n,
        _ => true,
    }
}

/// `pikchr` starts at `i`, before `end`.
fn word_at(s: &Vec<char>, i: usize, end: usize) -> (r: bool)
    requires
        i <= end <= s.len(),
    ensures
        r == starts_with(s@.subrange(i as int, end as int), pikchr_word()),
{
    let r = end - i >= 6 && s[i] == 'p' && s[i + 1] == 'i' && s[i + 2] == 'k' && s[i + 3] == 'c' && s[i + 4]
        == 'h' && s[i + 5] == 'r';
    proof {
        let t = s@.subrange(i as int, end as int);
        if r {
            assert(t.take(6) =~= pikchr_word());
        } else if t.len() >= 6 && t.take(6) == pikchr_word() {
            assert(t.take(6)[0] == s@[i as int] && t.take(6)[1] == s@[i + 1] && t.take(6)[2] == s@[i + 2]);
            assert(t.take(6)[3] == s@[i + 3] && t.take(6)[4] == s@[i + 4] && t.take(6)[5] == s@[i + 5]);
        }
    }
    r
}

fn skip_line_breaks_exec(s: &Vec<char>, p: usize) -> (r: usize)
    requires
        p <= s.len(),
    ensures
        r == skip_line_breaks(s@, p as int),
{
    let mut k = p;
    while k < s.len() && (s[k] == '\n' || s[k] == '\r')
        invariant
            p <= k <= s.len(),
            skip_line_breaks(s@, p as int) == skip_line_breaks(s@, k as int),
        decreases s.len() - k,
    {
        k = k + 1;
    }
    k
}

fn step_exec(s: &Vec<char>, p: usize) -> (r: Step)
    requires
        p < s.len(),
    ensures
        step_view(s@, r) == pikchr_step(s@, p as int),
        step_ranges_ok(s@.len(), r),
{
    let f: Vec<char> = vec!['`', '`', '`'];
    assert(f@ =~= backticks());
    if s.len() - p > 3 && crate::text::match_at_exec(s, &f, p) {
        proof {
            crate::text::lemma_line_end(s@, p + 3);
            lemma_find_from(s@, seq!['\n'], p + 3);
        }
        let info_end = match crate::text::find_char_from(s, '\n', p + 3) {
            Some(k) => k,
            None => s.len(),
        };
        let (ia, ib) = trim_range(s, p + 3, info_end);
        let ghost info = s@.subrange(ia as int, ib as int);
        if word_at(s, ia, ib) {
            let mut a = ia;
            while a <= ib && word_at(s, a, ib)
                invariant
                    ia <= a <= ib,
                    ib <= s.len(),
                    info == s@.subrange(ia as int, ib as int),
                    strip_prefixes(info, pikchr_word()) == strip_prefixes(
                        s@.subrange(a as int, ib as int),
                        pikchr_word(),
                    ),
                decreases ib - a,
            {
                assert(s@.subrange(a as int, ib as int).skip(6) =~= s@.subrange(a + 6, ib as int));
                a = a + 6;
            }
            let (aa, ab) = trim_range(s, a, ib);
            let start = if info_end < s.len() {
                info_end + 1
            } else {
                info_end
            };
            proof {
                lemma_find_from(s@, backticks(), start as int);
            }
            let fe = find_closing_fence(s, start);
            let (ba, bb) = if fe > start {
                let ce0 = fe - 3;
                let ce1 = if ce0 > start && s[ce0 - 1] == '\n' {
                    ce0 - 1
                } else {
                    ce0
                };
                let ce = if ce1 < ce0 && ce1 > start && s[ce1 - 1] == '\r' {
                    ce1 - 1
                } else {
                    ce1
                };
                if start < ce {
                    (start, ce)
                } else {
                    (start, start)
                }
            } else {
                (start, start)
            };
            assert(s@.subrange(ba as int, bb as int) =~= block_text(s@, start as int, fe as int));
            let next = if fe > 0 {
                Some(skip_line_breaks_exec(s, fe))
            } else {
                None
            };
            Step::Block(ba, bb, aa, ab, next)
        } else {
            let le = find_line_end(s, info_end);
            proof {
                lemma_line_end_from(s@, info_end as int);
            }
            Step::Copy(le + 1)
        }
    } else {
        proof {
            lemma_find_from(s@, backticks(), p as int);
        }
        match find_from_exec(s, &f, p) {
            Some(k) => if k > p {
                Step::Copy(k)
            } else {
                Step::Stuck
            },
            None => Step::CopyRest,
        }
    }
}


/// The scan of the chapter reaches a fence that ends it, where it would
/// never end (see `stuck_from`).
pub fn scan_gets_stuck(content: &str) -> (r: bool)
    ensures
        r == stuck_from(content@, 0),
{
    let s = to_chars(content);
    let mut p: usize = 0;
    while p < s.len()
        invariant
            p <= s.len(),
            s@ == content@,
            stuck_from(s@, 0) == stuck_from(s@, p as int),
        decreases s.len() - p,
    {
        proof {
            lemma_pikchr_step(s@, p as int);
        }
        match step_exec(&s, p) {
            Step::Copy(e) => {
                p = e;
            },
            Step::Block(_, _, _, _, Some(n)) => {
                p = n;
            },
            Step::Stuck => {
                return true;
            },
            _ => {
                return false;
            },
        }
    }
    false
}

/// The diagram blocks of a chapter, in order, each with the alignment
/// written after `pikchr` (see `blocks_from`).
pub fn pikchr_blocks(content: &str) -> (r: Vec<(String, String)>)
    requires
        !stuck_from(content@, 0),
    ensures
        r@.map_values(|e: (String, String)| (e.0@, e.1@)) == blocks_from(content@, 0),
{
    let s = to_chars(content);
    let mut out: Vec<(String, String)> = Vec::new();
    let mut p: usize = 0;
    while p < s.len()
        invariant
            p <= s.len(),
            s@ == content@,
            !stuck_from(s@, p as int),
            blocks_from(s@, 0) == out@.map_values(|e: (String, String)| (e.0@, e.1@)) + blocks_from(
                s@,
                p as int,
            ),
        decreases s.len() - p,
    {
        proof {
            lemma_pikchr_step(s@, p as int);
        }
        let ghost before = out@.map_values(|e: (String, String)| (e.0@, e.1@));
        match step_exec(&s, p) {
            Step::Copy(e) => {
                p = e;
            },
            Step::Block(a, b, c, d, next) => {
                let mut text = String::new();
                push_range(&mut text, &s, a, b);
                let mut align = String::new();
                push_range(&mut align, &s, c, d);
                let ghost item = (text@, align@);
                out.push((text, align));
                assert(out@.map_values(|e: (String, String)| (e.0@, e.1@)) =~= before.push(item));
                match next {
                    Some(n) => {
                        assert(before + blocks_from(s@, p as int) =~= before.push(item) + blocks_from(
                            s@,
                            n as int,
                        ));
                        p = n;
                    },
                    None => {
                        assert(before + blocks_from(s@, p as int) =~= before.push(item));
                        assert(blocks_from(s@, s.len() as int) =~= seq![]);
                        p = s.len();
                    },
                }
            },
            _ => {
                assert(blocks_from(s@, p as int) =~= seq![]);
                assert(blocks_from(s@, s.len() as int) =~= seq![]);
                p = s.len();
            },
        }
    }
    assert(blocks_from(s@, p as int) =~= seq![]);
    assert(out@.map_values(|e: (String, String)| (e.0@, e.1@)) + seq![] =~= out@.map_values(
        |e: (String, String)| (e.0@, e.1@),
    ));
    out
}

/// The chapter with each diagram block replaced by what stands for it (see
/// `pikchr_from`): `rendered` holds, for each block of `pikchr_blocks` in
/// order, the SVG drawn for it, or none when it could not be drawn.
pub fn process_content(content: &str, rendered: &Vec<Option<String>>) -> (r: String)
    requires
        !stuck_from(content@, 0),
        blocks_from(content@, 0).len() <= rendered@.len(),
    ensures
        r@ == pikchr_from(content@, 0, rendered_views(rendered@)),
{
    let s = to_chars(content);
    let ghost rv = rendered_views(rendered@);
    let mut out = String::new();
    let mut p: usize = 0;
    let mut k: usize = 0;
    assert(rv.skip(0) =~= rv);
    while p < s.len()
        invariant
            p <= s.len(),
            s@ == content@,
            rv == rendered_views(rendered@),
            k <= rendered.len(),
            !stuck_from(s@, p as int),
            blocks_from(s@, p as int).len() <= rendered@.len() - k,
            pikchr_from(s@, 0, rv) == out@ + pikchr_from(s@, p as int, rv.skip(k as int)),
        decreases s.len() - p,
    {
        proof {
            lemma_pikchr_step(s@, p as int);
        }
        let ghost out0 = out@;
        match step_exec(&s, p) {
            Step::Copy(e) => {
                push_range(&mut out, &s, p, e);
                p = e;
            },
            Step::CopyRest => {
                push_range(&mut out, &s, p, s.len());
                assert(pikchr_from(s@, s.len() as int, rv.skip(k as int)) =~= seq![]);
                p = s.len();
            },
            Step::Block(a, b, c, d, next) => {
                let ghost r0 = rv.skip(k as int)[0];
                assert(r0 == rv[k as int]);
                match &rendered[k] {
                    Some(svg) => {
                        out.append(svg.as_str());
                        out.append("\n\n");
                    },
                    None => {
                        out.append("<pre><code class=\"language-pikchr\">");
                        push_range(&mut out, &s, a, b);
                        out.append("</code></pre>\n");
                    },
                }
                assert(out@ =~= out0 + diagram_text(r0, s@.subrange(a as int, b as int)));
                match next {
                    Some(n) => {
                        assert(rv.skip(k as int).skip(1) =~= rv.skip(k + 1));
                        p = n;
                        k = k + 1;
                    },
                    None => {
                        push_range(&mut out, &s, p, s.len());
                        assert(pikchr_from(s@, s.len() as int, rv.skip(k as int)) =~= seq![]);
                        p = s.len();
                    },
                }
            },
            Step::Stuck => {
                p = s.len();
            },
        }
    }
    assert(pikchr_from(s@, p as int, rv.skip(k as int)) =~= seq![]);
    out
}


/// What a diagram becomes from the text Pikchr returned for it: none when
/// Pikchr returned an error message (a `<pre>` and no `<svg>`), otherwise
/// the text in a `<div class="pikchr-wrapper">`.
pub open spec fn pikchr_drawing(output: Seq<char>) -> Option<Seq<char>> {
    if !contains(output, "<svg"@) && contains(output, "<pre>"@) {
        None
    } else {
        Some("<div class=\"pikchr-wrapper\">"@ + output + "</div>"@)
    }
}

/// Wraps what Pikchr returned for a diagram (see `pikchr_drawing`).
pub fn wrap_pikchr_output(output: &str) -> (r: Option<String>)
    ensures
        match r {
            Some(x) => pikchr_drawing(output@) == Some(x@),
            None => pikchr_drawing(output@) is None,
        },
{
    let v = to_chars(output);
    if !contains_str(&v, "<svg") && contains_str(&v, "<pre>") {
        return None;
    }
    let mut r = String::new();
    r.append("<div class=\"pikchr-wrapper\">");
    r.append(output);
    r.append("</div>");
    Some(r)
}

/// A chapter without a code fence comes out of the pass unchanged,
/// whatever the drawings.
pub proof fn law_no_fence_no_change(s: Seq<char>, rendered: Seq<Option<Seq<char>>>)
    requires
        !contains(s, backticks()),
    ensures
        pikchr_from(s, 0, rendered) == s,
{
    lemma_find_from(s, backticks(), 0);
    if s.len() > 0 {
        assert(!match_at(s, backticks(), 0));
        assert(pikchr_step(s, 0) == PikchrStep::CopyRest);
        assert(s.subrange(0, s.len() as int) =~= s);
    }
}

} // verus!
