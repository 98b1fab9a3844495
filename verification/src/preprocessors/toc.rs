//! mdbook-toc: a table of contents of the headings (levels 1 to 4) that
//! follow the `<!-- toc -->` marker, inserted after it.
use vstd::prelude::*;
use crate::markdown::{markdown_events, parse_events, MdEvent, MdEventView};
use crate::text::{
    find, lemma_find_from, push_char, push_range, to_chars, to_lowercase, unicode_alphanumeric,
    unicode_lowercase, is_alphanumeric, find_str,
};

verus! {

broadcast use vstd::string::group_string_axioms;

/// The preprocessor.
pub struct TocPreprocessor;

impl TocPreprocessor {
    /// The name mdbook knows the preprocessor by.
    pub fn name(&self) -> (r: &'static str)
        ensures
            r@ == "mdbook-toc"@,
    {
        "mdbook-toc"
    }

    /// Every renderer is supported except the one named `not-supported`.
    pub fn supports_renderer(&self, renderer: &str) -> (r: bool)
        ensures
            r == (renderer@ != "not-supported"@),
    {
        !crate::text::str_eq(renderer, "not-supported")
    }
}

// ───────────────────────── slugs ─────────────────────────

/// A character of a slug: letters, digits, `-` and `_` stay; anything else
/// becomes `-`.
pub open spec fn slug_char(c: char) -> char {
    if unicode_alphanumeric(c) || c == '-' || c == '_' {
        c
    } else {
        '-'
    }
}

/// `s` with each run of `-` reduced to one `-`.
pub open spec fn collapse_dashes(s: Seq<char>) -> Seq<char>
    decreases s.len(),
{
    if s.len() == 0 {
        seq![]
    } else {
        let a = collapse_dashes(s.drop_last());
        if s.last() == '-' && a.len() > 0 && a.last() == '-' {
            a
        } else {
            a.push(s.last())
        }
    }
}

/// `s` without its leading and trailing `-` (`trim_matches('-')`).
pub open spec fn trim_dashes(s: Seq<char>) -> Seq<char>
    decreases s.len(),
{
    if s.len() > 0 && s[0] == '-' {
        trim_dashes(s.drop_first())
    } else if s.len() > 0 && s.last() == '-' {
        trim_dashes(s.drop_last())
    } else {
        s
    }
}

/// The anchor of a heading: lower-cased, every character that is not a
/// letter, digit, `-` or `_` turned into `-`, runs of `-` collapsed, and no
/// `-` at either end.
pub open spec fn heading_slug(text: Seq<char>) -> Seq<char> {
    trim_dashes(collapse_dashes(unicode_lowercase(text).map_values(|c: char| slug_char(c))))
}

/// `trim_dashes`, computed on `s[a..b]`.
fn trim_dashes_range(s: &Vec<char>, a: usize, b: usize) -> (r: (usize, usize))
    requires
        a <= b <= s.len(),
    ensures
        a <= r.0 <= r.1 <= b,
        s@.subrange(r.0 as int, r.1 as int) == trim_dashes(s@.subrange(a as int, b as int)),
    decreases b - a,
{
    if a < b && s[a] == '-' {
        assert(s@.subrange(a as int, b as int).drop_first() =~= s@.subrange(a + 1, b as int));
        trim_dashes_range(s, a + 1, b)
    } else if a < b && s[b - 1] == '-' {
        assert(s@.subrange(a as int, b as int).drop_last() =~= s@.subrange(a as int, b - 1));
        trim_dashes_range(s, a, b - 1)
    } else {
        (a, b)
    }
}

/// The anchor of a heading (see `heading_slug`).
pub fn slugify(text: &str) -> (r: String)
    ensures
        r@ == heading_slug(text@),
{
    let lower = to_lowercase(text);
    let l = to_chars(lower.as_str());
    let mut acc: Vec<char> = Vec::new();
    let mut i: usize = 0;
    let ghost mapped = l@.map_values(|c: char| slug_char(c));
    while i < l.len()
        invariant
            i <= l.len(),
            mapped == l@.map_values(|c: char| slug_char(c)),
            acc@ == collapse_dashes(mapped.take(i as int)),
        decreases l.len() - i,
    {
        let c = l[i];
        let d = if is_alphanumeric(c) || c == '-' || c == '_' {
            c
        } else {
            '-'
        };
        assert(mapped.take(i + 1).drop_last() =~= mapped.take(i as int));
        assert(mapped.take(i + 1).last() == d);
        if !(d == '-' && acc.len() > 0 && acc[acc.len() - 1] == '-') {
            acc.push(d);
        }
        i = i + 1;
    }
    assert(mapped.take(l.len() as int) =~= mapped);
    let (a, b) = trim_dashes_range(&acc, 0, acc.len());
    assert(acc@.subrange(0, acc@.len() as int) =~= acc@);
    let mut r = String::new();
    push_range(&mut r, &acc, a, b);
    r
}

// ───────────────────────── table of contents ─────────────────────────

/// `"  "` repeated `n` times.
pub open spec fn indent(n: int) -> Seq<char>
    decreases n,
{
    if n <= 0 {
        seq![]
    } else {
        indent(n - 1) + "  "@
    }
}

/// The entry of one heading: indented by its level, linking to its anchor.
pub open spec fn toc_entry(level: u8, text: Seq<char>) -> Seq<char> {
    indent(level - 1) + "* ["@ + text + "](#"@ + heading_slug(text) + ")\n"@
}

/// From event `i` on, the entries of the headings of level 1 to 4 with some
/// text; `in_heading`, `level` and `text` describe the heading being read.
pub open spec fn toc_from(evs: Seq<MdEventView>, i: int, in_heading: bool, level: u8, text: Seq<char>) -> Seq<char>
    decreases evs.len() - i,
{
    if i < 0 || i >= evs.len() {
        seq![]
    } else {
        match evs[i] {
            MdEventView::HeadingStart(l) => toc_from(evs, i + 1, true, l, seq![]),
            MdEventView::HeadingEnd => (if in_heading && text.len() > 0 && level <= 4 {
                toc_entry(level, text)
            } else {
                seq![]
            }) + toc_from(evs, i + 1, false, level, text),
            MdEventView::Text(t) => toc_from(
                evs,
                i + 1,
                in_heading,
                level,
                if in_heading {
                    text + t
                } else {
                    text
                },
            ),
            MdEventView::Code(t) => toc_from(
                evs,
                i + 1,
                in_heading,
                level,
                if in_heading {
                    text + t
                } else {
                    text
                },
            ),
            _ => toc_from(evs, i + 1, in_heading, level, text),
        }
    }
}

/// The table of contents of a Markdown text.
pub open spec fn toc_of(content: Seq<char>) -> Seq<char> {
    toc_from(markdown_events(content), 0, false, 0, seq![])
}

/// Builds the table of contents of the headings of `content`.
pub fn generate_toc(content: &str) -> (r: String)
    ensures
        r@ == toc_of(content@),
{
    let evs = parse_events(content);
    let ghost ev = evs@.map_values(|e: MdEvent| e@);
    let mut toc = String::new();
    let mut in_heading = false;
    let mut level: u8 = 0;
    let mut text = String::new();
    let mut i: usize = 0;
    while i < evs.len()
        invariant
            i <= evs.len(),
            ev == evs@.map_values(|e: MdEvent| e@),
            ev == markdown_events(content@),
            toc_of(content@) == toc@ + toc_from(ev, i as int, in_heading, level, text@),
        decreases evs.len() - i,
    {
        assert(ev[i as int] == evs@[i as int]@);
        match &evs[i] {
            MdEvent::HeadingStart(l) => {
                in_heading = true;
                level = *l;
                text = String::new();
            },
            MdEvent::HeadingEnd => {
                if in_heading && !text.as_str().is_empty() && level <= 4 {
                    let lv = if level >= 1 { level - 1 } else { 0 };
                    let mut k: u8 = 0;
                    let ghost before = toc@;
                    while k < lv
                        invariant
                            k <= lv,
                            toc@ == before + indent(k as int),
                        decreases lv - k,
                    {
                        toc.append("  ");
                        k = k + 1;
                    }
                    proof {
                        assert(indent(lv as int) == indent(level - 1)) by {
                            if level == 0 {
                                assert(indent(level - 1) == Seq::<char>::empty());
                            }
                        }
                    }
                    toc.append("* [");
                    toc.append(text.as_str());
                    toc.append("](#");
                    let slug = slugify(text.as_str());
                    toc.append(slug.as_str());
                    toc.append(")\n");
                }
                in_heading = false;
            },
            MdEvent::Text(t) => {
                if in_heading {
                    text.append(t.as_str());
                }
            },
            MdEvent::Code(t) => {
                if in_heading {
                    text.append(t.as_str());
                }
            },
            _ => {},
        }
        i = i + 1;
    }
    toc
}

/// The chapter with its table of contents inserted after the first
/// `<!-- toc -->` marker (on a new line), the text after the marker kept
/// after it; unchanged without a marker.
pub open spec fn toc_inserted(content: Seq<char>) -> Seq<char> {
    match find(content, "<!-- toc -->"@) {
        Some(pos) => content.take(pos + 12) + "\n"@ + toc_of(content.skip(pos + 12)) + content.skip(pos + 12),
        None => content,
    }
}

/// Inserts the table of contents after the `<!-- toc -->` marker.
pub fn process_chapter(content: &str) -> (r: String)
    ensures
        r@ == toc_inserted(content@),
{
    proof {
        reveal_strlit("<!-- toc -->");
    }
    let s = to_chars(content);
    match find_str(&s, "<!-- toc -->") {
        Some(pos) => {
            proof {
                lemma_find_from(s@, "<!-- toc -->"@, 0);
            }
            let mut before = String::new();
            push_range(&mut before, &s, 0, pos + 12);
            assert(s@.subrange(0, pos + 12) =~= s@.take(pos + 12));
            let mut after = String::new();
            push_range(&mut after, &s, pos + 12, s.len());
            assert(s@.subrange(pos + 12, s@.len() as int) =~= s@.skip(pos + 12));
            let toc = generate_toc(after.as_str());
            before.append("\n");
            before.append(toc.as_str());
            before.append(after.as_str());
            before
        },
        None => crate::text::from_chars(&s),
    }
}

/// The preprocessor pass over a book: the content of every chapter
/// processed. Reading the book from mdbook and writing it back is left to
/// the caller.
pub fn run(chapters: &[String]) -> (r: Vec<String>)
    ensures
        r.len() == chapters.len(),
        forall|i: int| 0 <= i < chapters.len() ==> #[trigger] r[i]@ == toc_inserted(chapters[i]@),
{
    let mut r: Vec<String> = Vec::new();
    let mut i: usize = 0;
    while i < chapters.len()
        invariant
            i <= chapters.len(),
            r.len() == i,
            forall|k: int| 0 <= k < i ==> #[trigger] r[k]@ == toc_inserted(chapters[k]@),
        decreases chapters.len() - i,
    {
        r.push(process_chapter(chapters[i].as_str()));
        i = i + 1;
    }
    r
}

} // verus!
