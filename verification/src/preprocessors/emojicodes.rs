//! mdbook-emojicodes: `:shortcode:` becomes the emoji (outside fenced code).
use vstd::prelude::*;
use crate::pattern::{pieces_view, regex_pieces, regex_split};
use crate::preprocessors::embedify::{group_str, group_text};
use crate::text::{
    lemma_line_end, line_at, line_end, next_line, push_char, starts_with, starts_with_str, to_chars, trim,
    trim_range,
};

verus! {

broadcast use vstd::string::group_string_axioms;

/// The preprocessor.
pub struct EmojiCodesPreprocessor;

impl EmojiCodesPreprocessor {
    /// The name mdbook knows the preprocessor by.
    pub fn name(&self) -> (r: &'static str)
        ensures
            r@ == "mdbook-emojicodes"@,
    {
        "mdbook-emojicodes"
    }

    /// Every renderer is supported except the one named `not-supported`.
    pub fn supports_renderer(&self, renderer: &str) -> (r: bool)
        ensures
            r == (renderer@ != "not-supported"@),
    {
        !crate::text::str_eq(renderer, "not-supported")
    }
}

/// The emoji whose shortcode is `code`, as `emojis::get_by_shortcode` finds
/// it in its table.
pub uninterp spec fn emoji_for_shortcode(code: Seq<char>) -> Option<Seq<char>>;

/// `emojis::get_by_shortcode`, the emoji given as its string.
#[verifier::external_body]
fn emoji_by_shortcode(code: &str) -> (r: Option<String>)
    ensures
        match r {
            Some(e) => emoji_for_shortcode(code@) == Some(e@),
            None => emoji_for_shortcode(code@) is None,
        },
{
    match emojis::get_by_shortcode(code) {
        Some(e) => Some(e.as_str().to_string()),
        None => None,
    }
}

/// A shortcode: `:code:` with no colon and no whitespace in `code`
/// (group 1), matched lazily.
pub const SHORTCODE: &'static str = ":([^:\\s]*?):";

/// What a matched shortcode becomes: its emoji, or the match as written
/// when the code is unknown.
pub open spec fn shortcode_text(g: Seq<Option<Seq<char>>>) -> Seq<char> {
    match emoji_for_shortcode(group_text(g, 1)) {
        Some(e) => e,
        None => group_text(g, 0),
    }
}

/// A line rebuilt from the regex pieces, each shortcode replaced.
pub open spec fn shortcodes_rebuilt(pieces: Seq<(Seq<char>, Seq<Option<Seq<char>>>)>, tail: Seq<char>) -> Seq<char>
    decreases pieces.len(),
{
    if pieces.len() == 0 {
        tail
    } else {
        pieces[0].0 + shortcode_text(pieces[0].1) + shortcodes_rebuilt(pieces.drop_first(), tail)
    }
}

/// A line with each known shortcode replaced by its emoji; an unknown one is
/// kept as written.
pub open spec fn shortcodes_replaced(line: Seq<char>) -> Seq<char> {
    let (pieces, tail) = regex_pieces(SHORTCODE@, line);
    shortcodes_rebuilt(pieces, tail)
}

/// A line that opens or closes fenced code.
pub open spec fn is_fence_line(line: Seq<char>) -> bool {
    starts_with(trim(line), "```"@) || starts_with(trim(line), "~~~"@)
}

/// From position `p` on, each line followed by `'\n'`, with its shortcodes
/// replaced unless it is inside fenced code (`inside`); a fence line toggles
/// `inside` and is kept.
pub open spec fn emoji_lines_from(s: Seq<char>, p: int, inside: bool) -> Seq<char>
    decreases s.len() + 1 - p,
{
    if p < 0 || p >= s.len() {
        seq![]
    } else {
        proof {
            lemma_line_end(s, p);
        }
        let line = line_at(s, p);
        let next = line_end(s, p) + 1;
        if is_fence_line(line) {
            line.push('\n') + emoji_lines_from(s, next, !inside)
        } else if !inside {
            shortcodes_replaced(line).push('\n') + emoji_lines_from(s, next, inside)
        } else {
            line.push('\n') + emoji_lines_from(s, next, inside)
        }
    }
}

/// A chapter with its shortcodes replaced.
pub open spec fn emoji_replaced(text: Seq<char>) -> Seq<char> {
    emoji_lines_from(text, 0, false)
}

/// Replaces the shortcodes of one line.
fn replace_shortcodes(line: &Vec<char>, out: &mut String)
    ensures
        final(out)@ == old(out)@ + shortcodes_replaced(line@),
{
    let text = crate::text::from_chars(line);
    let (pieces, tail) = regex_split(SHORTCODE, text.as_str());
    let ghost pv = pieces_view(pieces@);
    let ghost base = out@;
    let mut i: usize = 0;
    assert(pv.skip(0) =~= pv);
    while i < pieces.len()
        invariant
            i <= pieces.len(),
            pv == pieces_view(pieces@),
            base + shortcodes_rebuilt(pv, tail@) == out@ + shortcodes_rebuilt(pv.skip(i as int), tail@),
        decreases pieces.len() - i,
    {
        out.append(pieces[i].0.as_str());
        let g = &pieces[i].1;
        let code = group_str(g, 1);
        match emoji_by_shortcode(code.as_str()) {
            Some(e) => out.append(e.as_str()),
            None => {
                let whole = group_str(g, 0);
                out.append(whole.as_str());
            },
        }
        assert(pv.skip(i as int).drop_first() =~= pv.skip(i + 1));
        assert(pv.skip(i as int)[0] == pv[i as int]);
        i = i + 1;
    }
    out.append(tail.as_str());
}

/// Replaces `:shortcode:` by its emoji in every line outside fenced code;
/// each line of the result ends with `'\n'`.
pub fn replace_emoji_shortcode(text: &str) -> (r: String)
    ensures
        r@ == emoji_replaced(text@),
{
    proof {
        reveal_strlit("```");
        reveal_strlit("~~~");
    }
    let s = to_chars(text);
    let mut result = String::new();
    let mut inside = false;
    let mut p: usize = 0;
    while p < s.len()
        invariant
            p <= s.len(),
            s@ == text@,
            emoji_lines_from(s@, 0, false) == result@ + emoji_lines_from(s@, p as int, inside),
        decreases s.len() - p,
    {
        let (e, le) = next_line(&s, p);
        proof {
            lemma_line_end(s@, p as int);
        }
        let mut line: Vec<char> = Vec::new();
        crate::text::extend_range(&mut line, &s, p, e);
        let (tb, te) = trim_range(&line, 0, line.len());
        let mut t: Vec<char> = Vec::new();
        crate::text::extend_range(&mut t, &line, tb, te);
        assert(line@.subrange(0, line@.len() as int) =~= line@);
        let fence = starts_with_str(&t, "```") || starts_with_str(&t, "~~~");
        if fence {
            inside = !inside;
            crate::text::push_all(&mut result, &line);
        } else if !inside {
            replace_shortcodes(&line, &mut result);
        } else {
            crate::text::push_all(&mut result, &line);
        }
        push_char(&mut result, '\n');
        let next = if le < s.len() {
            le + 1
        } else {
            s.len()
        };
        assert(emoji_lines_from(s@, next as int, inside) == emoji_lines_from(s@, le + 1, inside));
        p = next;
    }
    result
}

/// The preprocessor pass over a book: the content of every chapter
/// processed. Reading the book from mdbook and writing it back is left to
/// the caller.
pub fn run(chapters: &[String]) -> (r: Vec<String>)
    ensures
        r.len() == chapters.len(),
        forall|i: int| 0 <= i < chapters.len() ==> #[trigger] r[i]@ == emoji_replaced(chapters[i]@),
{
    let mut r: Vec<String> = Vec::new();
    let mut i: usize = 0;
    while i < chapters.len()
        invariant
            i <= chapters.len(),
            r.len() == i,
            forall|k: int| 0 <= k < i ==> #[trigger] r[k]@ == emoji_replaced(chapters[k]@),
        decreases chapters.len() - i,
    {
        r.push(replace_emoji_shortcode(chapters[i].as_str()));
        i = i + 1;
    }
    r
}

/// The entry the unified preprocessor calls: the chapter's shortcodes
/// replaced (see `emoji_replaced`).
pub fn process_content(content: &str) -> (r: String)
    ensures
        r@ == emoji_replaced(content@),
{
    replace_emoji_shortcode(content)
}

} // verus!
