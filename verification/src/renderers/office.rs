//! mdbook-office: the book as DOCX / XLSX / PPTX. The chapters' HTML is
//! reduced to text, the chapters are joined into one Markdown document and
//! that document is what each output format is built from.
use vstd::prelude::*;
use crate::book::{chapter_list, collect_chapters, pair_views, BookItem};
use crate::text::{
    contains, contains_str, find_from, push_char, push_range, replace_str, replaced, starts_with,
    starts_with_str, to_chars, to_lowercase, trim, trim_range, unicode_lowercase,
};

verus! {

broadcast use vstd::string::group_string_axioms;

/// The renderer.
pub struct OfficeRenderer;

impl OfficeRenderer {
    /// The name mdbook knows the renderer by.
    pub fn name(&self) -> (r: &'static str)
        ensures
            r@ == "office"@,
    {
        "office"
    }
}

// ───────────────────────── HTML to text ─────────────────────────

/// `s[a..a+k]`, cut at the end of `s`.
pub open spec fn window(s: Seq<char>, a: int, k: int) -> Seq<char> {
    s.subrange(a, if a + k < s.len() {
        a + k
    } else {
        s.len() as int
    })
}

/// A tag opening at `i` starts a block whose text is dropped (scripts,
/// styles, diagrams and formulas), judged on the lower-cased 30 characters
/// from `i`.
pub open spec fn opens_skipped_block(s: Seq<char>, i: int) -> bool {
    let lower = unicode_lowercase(window(s, i, 30));
    starts_with(lower, "<script"@) || starts_with(lower, "<style"@) || starts_with(
        lower,
        "<div class=\"mermaid"@,
    ) || starts_with(lower, "<div class=\"echarts"@) || starts_with(lower, "<span class=\"katex"@)
}

/// The 30 characters around a `>` at `i` (from 20 before it).
pub open spec fn tag_context(s: Seq<char>, i: int) -> Seq<char> {
    window(
        s,
        if i > 20 {
            i - 20
        } else {
            0
        },
        30,
    )
}

/// A `>` at `i` ends a skipped block: a `</` among the 8 characters before
/// it and a closing script, style or div around it.
pub open spec fn ends_skipped_block(s: Seq<char>, i: int) -> bool {
    let ctx = tag_context(s, i);
    contains(
        s.subrange(
            if i >= 8 {
                i - 8
            } else {
                0
            },
            i,
        ),
        "</"@,
    ) && (contains(ctx, "</script>"@) || contains(ctx, "</style>"@) || contains(ctx, "</div>"@))
}

/// A `>` at `i` closes a block element (div, paragraph, heading, list item,
/// table row): a line break is written.
pub open spec fn breaks_line(s: Seq<char>, i: int) -> bool {
    let ctx = tag_context(s, i);
    contains(ctx, "</div>"@) || contains(ctx, "</p>"@) || contains(ctx, "</h1>"@) || contains(
        ctx,
        "</h2>"@,
    ) || contains(ctx, "</h3>"@) || contains(ctx, "</li>"@) || contains(ctx, "</tr>"@)
}

/// From position `i` on, the text outside tags and skipped blocks.
pub open spec fn untagged_text_from(s: Seq<char>, i: int, in_tag: bool, skip: bool) -> Seq<char>
    decreases s.len() - i,
{
    if i < 0 || i >= s.len() {
        seq![]
    } else if s[i] == '<' {
        untagged_text_from(s, i + 1, true, skip || opens_skipped_block(s, i))
    } else if s[i] == '>' {
        (if breaks_line(s, i) {
            seq!['\n']
        } else {
            seq![]
        }) + untagged_text_from(s, i + 1, false, skip && !ends_skipped_block(s, i))
    } else if in_tag || skip {
        untagged_text_from(s, i + 1, in_tag, skip)
    } else {
        seq![s[i]] + untagged_text_from(s, i + 1, in_tag, skip)
    }
}

/// The common HTML entities decoded, in this order: `&amp;`, `&lt;`,
/// `&gt;`, `&quot;`, `&#39;`, `&nbsp;`.
pub open spec fn entities_decoded(s: Seq<char>) -> Seq<char> {
    replaced(
        replaced(
            replaced(replaced(replaced(replaced(s, "&amp;"@, "&"@), "&lt;"@, "<"@), "&gt;"@, ">"@), "&quot;"@, "\""@),
            "&#39;"@,
            "'"@,
        ),
        "&nbsp;"@,
        " "@,
    )
}

/// From position `i` on, with `run` newlines just written (counted up to
/// 3): carriage returns dropped, and no more than two newlines in a row.
pub open spec fn newlines_collapsed_from(s: Seq<char>, i: int, run: nat) -> Seq<char>
    decreases s.len() - i,
{
    if i < 0 || i >= s.len() {
        seq![]
    } else if s[i] == '\n' {
        let run2: nat = if run < 3 {
            run + 1
        } else {
            3
        };
        (if run2 <= 2 {
            seq!['\n']
        } else {
            seq![]
        }) + newlines_collapsed_from(s, i + 1, run2)
    } else if s[i] != '\r' {
        seq![s[i]] + newlines_collapsed_from(s, i + 1, 0)
    } else {
        newlines_collapsed_from(s, i + 1, run)
    }
}

/// The text of a chapter's HTML: tags and skipped blocks removed, entities
/// decoded, newlines collapsed, trimmed.
pub open spec fn cleaned_text(raw: Seq<char>) -> Seq<char> {
    trim(newlines_collapsed_from(entities_decoded(untagged_text_from(raw, 0, false, false)), 0, 0))
}

/// `window(s, a, k)`, computed.
fn window_exec(s: &Vec<char>, a: usize, k: usize) -> (r: Vec<char>)
    requires
        a <= s.len(),
    ensures
        r@ == window(s@, a as int, k as int),
{
    let e = if k < s.len() - a {
        a + k
    } else {
        s.len()
    };
    let mut r: Vec<char> = Vec::new();
    crate::text::extend_range(&mut r, s, a, e);
    r
}

/// Decides `opens_skipped_block`.
fn opens_skipped_block_exec(s: &Vec<char>, i: usize) -> (r: bool)
    requires
        i <= s.len(),
    ensures
        r == opens_skipped_block(s@, i as int),
{
    let w = window_exec(s, i, 30);
    let ws = crate::text::from_chars(&w);
    let lower = to_lowercase(ws.as_str());
    let l = to_chars(lower.as_str());
    starts_with_str(&l, "<script") || starts_with_str(&l, "<style") || starts_with_str(
        &l,
        "<div class=\"mermaid",
    ) || starts_with_str(&l, "<div class=\"echarts") || starts_with_str(&l, "<span class=\"katex")
}

/// Decides `ends_skipped_block` and `breaks_line`.
fn closing_checks(s: &Vec<char>, i: usize) -> (r: (bool, bool))
    requires
        i < s.len(),
    ensures
        r.0 == ends_skipped_block(s@, i as int),
        r.1 == breaks_line(s@, i as int),
{
    let c0 = if i > 20 {
        i - 20
    } else {
        0
    };
    let ctx = window_exec(s, c0, 30);
    let b = if i >= 8 {
        i - 8
    } else {
        0
    };
    let mut pre: Vec<char> = Vec::new();
    crate::text::extend_range(&mut pre, s, b, i);
    let ends = contains_str(&pre, "</") && (contains_str(&ctx, "</script>") || contains_str(
        &ctx,
        "</style>",
    ) || contains_str(&ctx, "</div>"));
    let br = contains_str(&ctx, "</div>") || contains_str(&ctx, "</p>") || contains_str(
        &ctx,
        "</h1>",
    ) || contains_str(&ctx, "</h2>") || contains_str(&ctx, "</h3>") || contains_str(&ctx, "</li>")
        || contains_str(&ctx, "</tr>");
    (ends, br)
}

/// Reduces a chapter's HTML to text (see `cleaned_text`).
pub fn clean_text(raw: &str) -> (r: String)
    ensures
        r@ == cleaned_text(raw@),
{
    let chars = to_chars(raw);
    let n = chars.len();
    let mut out: Vec<char> = Vec::new();
    let mut i: usize = 0;
    let mut in_tag = false;
    let mut skip_block = false;
    while i < n
        invariant
            n == chars.len(),
            i <= n,
            chars@ == raw@,
            untagged_text_from(chars@, 0, false, false) == out@ + untagged_text_from(
                chars@,
                i as int,
                in_tag,
                skip_block,
            ),
        decreases n - i,
    {
        if chars[i] == '<' {
            in_tag = true;
            if opens_skipped_block_exec(&chars, i) {
                skip_block = true;
            }
            i = i + 1;
            continue;
        }
        if chars[i] == '>' {
            in_tag = false;
            let (ends, br) = closing_checks(&chars, i);
            if skip_block && ends {
                skip_block = false;
            }
            let ghost before = out@;
            if br {
                out.push('\n');
            }
            assert(out@ == before + (if breaks_line(chars@, i as int) {
                seq!['\n']
            } else {
                seq![]
            }));
            i = i + 1;
            continue;
        }
        if in_tag || skip_block {
            i = i + 1;
            continue;
        }
        out.push(chars[i]);
        i = i + 1;
    }
    proof {
        reveal_strlit("&amp;");
        reveal_strlit("&lt;");
        reveal_strlit("&gt;");
        reveal_strlit("&quot;");
        reveal_strlit("&#39;");
        reveal_strlit("&nbsp;");
    }
    let mut t = replace_str(&out, "&amp;", "&");
    t = replace_str(&t, "&lt;", "<");
    t = replace_str(&t, "&gt;", ">");
    t = replace_str(&t, "&quot;", "\"");
    t = replace_str(&t, "&#39;", "'");
    t = replace_str(&t, "&nbsp;", " ");
    let mut cleaned: Vec<char> = Vec::new();
    let mut run: u8 = 0;
    let mut k: usize = 0;
    while k < t.len()
        invariant
            k <= t.len(),
            run <= 3,
            newlines_collapsed_from(t@, 0, 0) == cleaned@ + newlines_collapsed_from(
                t@,
                k as int,
                run as nat,
            ),
        decreases t.len() - k,
    {
        let c = t[k];
        if c == '\n' {
            if run < 3 {
                run = run + 1;
            }
            if run <= 2 {
                cleaned.push(c);
            }
        } else if c != '\r' {
            run = 0;
            cleaned.push(c);
        }
        k = k + 1;
    }
    let (a, b) = trim_range(&cleaned, 0, cleaned.len());
    assert(cleaned@.subrange(0, cleaned@.len() as int) =~= cleaned@);
    let mut r = String::new();
    push_range(&mut r, &cleaned, a, b);
    r
}

// ───────────────────────── the combined document ─────────────────────────

/// One chapter of the combined document: a chapter with no text becomes a
/// heading with its name; one that does not open with a heading gets its
/// name as heading; each is followed by a blank line.
pub open spec fn section_md(name: Seq<char>, text: Seq<char>) -> Seq<char> {
    let tr = trim(text);
    (if tr.len() == 0 {
        "# "@ + name + "\n\n"@
    } else if !starts_with(tr, "#"@) {
        "# "@ + name + "\n\n"@ + text
    } else {
        text
    }) + "\n\n"@
}

/// The Markdown document the office formats are built from: the chapters
/// one after the other.
pub open spec fn combined_md(ch: Seq<(Seq<char>, Seq<char>)>) -> Seq<char>
    decreases ch.len(),
{
    if ch.len() == 0 {
        seq![]
    } else {
        combined_md(ch.drop_last()) + section_md(ch.last().0, ch.last().1)
    }
}

/// Joins the chapters into one Markdown document (see `combined_md`).
pub fn combine_md(ch: &[(String, String)]) -> (r: String)
    ensures
        r@ == combined_md(pair_views(ch@)),
{
    proof {
        reveal_strlit("#");
    }
    let mut md = String::new();
    let mut i: usize = 0;
    while i < ch.len()
        invariant
            i <= ch.len(),
            md@ == combined_md(pair_views(ch@).take(i as int)),
        decreases ch.len() - i,
    {
        assert(pair_views(ch@).take(i + 1).drop_last() =~= pair_views(ch@).take(i as int));
        let n = &ch[i].0;
        let t = &ch[i].1;
        let tc = to_chars(t.as_str());
        let (a, b) = trim_range(&tc, 0, tc.len());
        assert(tc@.subrange(0, tc@.len() as int) =~= tc@);
        let mut tr: Vec<char> = Vec::new();
        crate::text::extend_range(&mut tr, &tc, a, b);
        if tr.len() == 0 {
            md.append("# ");
            md.append(n.as_str());
            md.append("\n\n");
        } else if !starts_with_str(&tr, "#") {
            md.append("# ");
            md.append(n.as_str());
            md.append("\n\n");
            md.append(t.as_str());
        } else {
            md.append(t.as_str());
        }
        md.append("\n\n");
        i = i + 1;
    }
    assert(pair_views(ch@).take(ch@.len() as int) =~= pair_views(ch@));
    md
}

// ───────────────────────── the formats ─────────────────────────

/// The formats configured under `output.office.formats`: the string
/// entries of the list (other entries are passed over); all three formats
/// when the list is not there.
pub open spec fn formats_of(listed: Option<Seq<Option<Seq<char>>>>) -> Seq<Seq<char>> {
    match listed {
        Some(l) => strings_of(l),
        None => seq!["docx"@, "xlsx"@, "pptx"@],
    }
}

/// The present entries of a list, in order.
pub open spec fn strings_of(l: Seq<Option<Seq<char>>>) -> Seq<Seq<char>>
    decreases l.len(),
{
    if l.len() == 0 {
        seq![]
    } else {
        strings_of(l.drop_last()) + match l.last() {
            Some(x) => seq![x],
            None => seq![],
        }
    }
}

/// The views of a list of optional strings.
pub open spec fn opt_views(l: Seq<Option<String>>) -> Seq<Option<Seq<char>>> {
    l.map_values(|o: Option<String>| match o {
        Some(x) => Some(x@),
        None => None,
    })
}

/// The formats to build: `listed` holds the entries of the configured
/// list (`None` for one that is not a string), or is `None` without a list.
pub fn get_formats(listed: Option<Vec<Option<String>>>) -> (r: Vec<String>)
    ensures
        r@.map_values(|x: String| x@) == formats_of(
            match listed {
                Some(l) => Some(opt_views(l@)),
                None => None,
            },
        ),
{
    match listed {
        Some(l) => {
            let mut r: Vec<String> = Vec::new();
            let mut i: usize = 0;
            while i < l.len()
                invariant
                    i <= l.len(),
                    r@.map_values(|x: String| x@) == strings_of(opt_views(l@).take(i as int)),
                decreases l.len() - i,
            {
                assert(opt_views(l@).take(i + 1).drop_last() =~= opt_views(l@).take(i as int));
                match &l[i] {
                    Some(x) => {
                        let ghost before = r@.map_values(|x: String| x@);
                        r.push(x.clone());
                        assert(r@.map_values(|x: String| x@) =~= before.push(x@));
                    },
                    None => {},
                }
                i = i + 1;
            }
            assert(opt_views(l@).take(l@.len() as int) =~= opt_views(l@));
            r
        },
        None => {
            let r = vec!["docx".to_string(), "xlsx".to_string(), "pptx".to_string()];
            assert(r@.map_values(|x: String| x@) =~= seq!["docx"@, "xlsx"@, "pptx"@]);
            r
        },
    }
}

/// An output the renderer writes.
pub enum OfficeOutput {
    /// `book.docx`.
    Docx,
    /// `book.xlsx`.
    Xlsx,
    /// `book.pptx`.
    Pptx,
    /// A format name the renderer does not know (a warning is due).
    Unsupported(String),
}

/// The output a format name asks for.
pub open spec fn output_for(f: Seq<char>) -> OfficeOutputView {
    if f == "docx"@ {
        OfficeOutputView::Docx
    } else if f == "xlsx"@ {
        OfficeOutputView::Xlsx
    } else if f == "pptx"@ {
        OfficeOutputView::Pptx
    } else {
        OfficeOutputView::Unsupported(f)
    }
}

/// The mathematical value of an output.
pub enum OfficeOutputView {
    Docx,
    Xlsx,
    Pptx,
    Unsupported(Seq<char>),
}

impl View for OfficeOutput {
    type V = OfficeOutputView;

    open spec fn view(&self) -> OfficeOutputView {
        match self {
            OfficeOutput::Docx => OfficeOutputView::Docx,
            OfficeOutput::Xlsx => OfficeOutputView::Xlsx,
            OfficeOutput::Pptx => OfficeOutputView::Pptx,
            OfficeOutput::Unsupported(f) => OfficeOutputView::Unsupported(f@),
        }
    }
}

/// What the renderer writes: one Markdown document, and the formats it is
/// converted to, in the configured order.
pub struct OfficeJob {
    pub markdown: String,
    pub outputs: Vec<OfficeOutput>,
}

/// The chapters with their HTML reduced to text.
pub open spec fn cleaned_chapters(ch: Seq<(Seq<char>, Seq<char>)>) -> Seq<(Seq<char>, Seq<char>)> {
    ch.map_values(|p: (Seq<char>, Seq<char>)| (p.0, cleaned_text(p.1)))
}

/// The renderer's work on a book: nothing when no format is asked for or
/// the book has no chapter; otherwise the combined document of the cleaned
/// chapters and the outputs of the formats. Writing the files is left to
/// the caller.
pub fn run(formats: &Vec<String>, sections: &Vec<BookItem>) -> (r: Option<OfficeJob>)
    ensures
        r is None <==> (formats.len() == 0 || chapter_list(sections@, 0).len() == 0),
        r matches Some(job) ==> job.markdown@ == combined_md(cleaned_chapters(chapter_list(sections@, 0)))
            && job.outputs@.map_values(|o: OfficeOutput| o@) == formats@.map_values(
            |f: String| output_for(f@),
        ),
{
    if formats.len() == 0 {
        return None;
    }
    let raw = collect_chapters(sections);
    if raw.len() == 0 {
        return None;
    }
    let mut text: Vec<(String, String)> = Vec::new();
    let mut i: usize = 0;
    while i < raw.len()
        invariant
            i <= raw.len(),
            pair_views(text@) == cleaned_chapters(pair_views(raw@)).take(i as int),
        decreases raw.len() - i,
    {
        let ghost before = pair_views(text@);
        text.push((raw[i].0.clone(), clean_text(raw[i].1.as_str())));
        assert(pair_views(text@) =~= before.push((raw@[i as int].0@, cleaned_text(raw@[i as int].1@))));
        assert(cleaned_chapters(pair_views(raw@)).take(i + 1) =~= cleaned_chapters(pair_views(raw@)).take(i as int).push((raw@[i as int].0@, cleaned_text(raw@[i as int].1@))));
        i = i + 1;
    }
    assert(cleaned_chapters(pair_views(raw@)).take(raw@.len() as int) =~= cleaned_chapters(pair_views(raw@)));
    let markdown = combine_md(text.as_slice());
    let mut outputs: Vec<OfficeOutput> = Vec::new();
    let mut k: usize = 0;
    while k < formats.len()
        invariant
            k <= formats.len(),
            outputs@.map_values(|o: OfficeOutput| o@) == formats@.map_values(|f: String| output_for(f@)).take(k as int),
        decreases formats.len() - k,
    {
        let f = formats[k].as_str();
        let o = if crate::text::str_eq(f, "docx") {
            OfficeOutput::Docx
        } else if crate::text::str_eq(f, "xlsx") {
            OfficeOutput::Xlsx
        } else if crate::text::str_eq(f, "pptx") {
            OfficeOutput::Pptx
        } else {
            OfficeOutput::Unsupported(formats[k].clone())
        };
        let ghost before = outputs@.map_values(|o: OfficeOutput| o@);
        outputs.push(o);
        assert(outputs@.map_values(|o: OfficeOutput| o@) =~= before.push(output_for(formats@[k as int]@)));
        assert(formats@.map_values(|f: String| output_for(f@)).take(k + 1) =~= formats@.map_values(|f: String| output_for(f@)).take(k as int).push(output_for(formats@[k as int]@)));
        k = k + 1;
    }
    assert(formats@.map_values(|f: String| output_for(f@)).take(formats@.len() as int) =~= formats@.map_values(|f: String| output_for(f@)));
    Some(OfficeJob { markdown, outputs })
}

// ───────────────────────── laws ─────────────────────────

/// No three newlines in a row.
pub open spec fn no_triple_newline(x: Seq<char>) -> bool {
    forall|i: int| 0 <= i && i + 2 < x.len() ==> !(#[trigger] x[i] == '\n' && x[i + 1] == '\n' && x[i + 2] == '\n')
}

/// How many newlines a text opens with.
pub open spec fn leading_newlines(x: Seq<char>) -> nat
    decreases x.len(),
{
    if x.len() > 0 && x[0] == '\n' {
        1 + leading_newlines(x.drop_first())
    } else {
        0
    }
}

proof fn lemma_collapsed(s: Seq<char>, i: int, run: nat)
    requires
        0 <= i <= s.len(),
        run <= 3,
    ensures
        no_triple_newline(newlines_collapsed_from(s, i, run)),
        leading_newlines(newlines_collapsed_from(s, i, run)) + (if run < 2 {
            run
        } else {
            2
        }) <= 2,
    decreases s.len() - i,
{
    let out = newlines_collapsed_from(s, i, run);
    if i < s.len() {
        if s[i] == '\n' {
            let run2: nat = if run < 3 {
                run + 1
            } else {
                3
            };
            lemma_collapsed(s, i + 1, run2);
            let r = newlines_collapsed_from(s, i + 1, run2);
            if run2 <= 2 {
                assert(out == seq!['\n'] + r);
                assert(out.drop_first() =~= r);
                assert forall|k: int| 0 <= k && k + 2 < out.len() implies !(#[trigger] out[k] == '\n' && out[k + 1] == '\n' && out[k + 2] == '\n') by {
                    if k == 0 {
                        if out[1] == '\n' && out[2] == '\n' {
                            assert(r[0] == '\n' && r[1] == '\n');
                            assert(r.drop_first()[0] == '\n');
                            assert(leading_newlines(r.drop_first()) >= 1);
                            assert(leading_newlines(r) >= 2);
                        }
                    } else {
                        assert(out[k] == r[k - 1]);
                        assert(out[k + 1] == r[k]);
                        assert(out[k + 2] == r[k + 1]);
                    }
                }
            } else {
                assert(out == Seq::<char>::empty() + r);
                assert(out =~= r);
            }
        } else if s[i] != '\r' {
            lemma_collapsed(s, i + 1, 0);
            let r = newlines_collapsed_from(s, i + 1, 0);
            assert(out == seq![s[i]] + r);
            assert forall|k: int| 0 <= k && k + 2 < out.len() implies !(#[trigger] out[k] == '\n' && out[k + 1] == '\n' && out[k + 2] == '\n') by {
                if k > 0 {
                    assert(out[k] == r[k - 1]);
                    assert(out[k + 1] == r[k]);
                    assert(out[k + 2] == r[k + 1]);
                }
            }
        } else {
            lemma_collapsed(s, i + 1, run);
        }
    }
}

proof fn lemma_collapsed_no_cr(s: Seq<char>, i: int, run: nat)
    requires
        0 <= i,
    ensures
        forall|k: int| 0 <= k < newlines_collapsed_from(s, i, run).len() ==> #[trigger] newlines_collapsed_from(s, i, run)[k] != '\r',
    decreases s.len() - i,
{
    let r = newlines_collapsed_from(s, i, run);
    if i < s.len() {
        if s[i] == '\n' {
            let run2: nat = if run < 3 { run + 1 } else { 3 };
            lemma_collapsed_no_cr(s, i + 1, run2);
            let rest = newlines_collapsed_from(s, i + 1, run2);
            assert forall|k: int| 0 <= k < r.len() implies #[trigger] r[k] != '\r' by {
                if run2 <= 2 {
                    assert(r =~= seq!['\n'] + rest);
                    if k > 0 {
                        assert(r[k] == rest[k - 1]);
                    }
                } else {
                    assert(r =~= rest);
                }
            }
        } else if s[i] != '\r' {
            lemma_collapsed_no_cr(s, i + 1, 0);
            let rest = newlines_collapsed_from(s, i + 1, 0);
            assert(r =~= seq![s[i]] + rest);
            assert forall|k: int| 0 <= k < r.len() implies #[trigger] r[k] != '\r' by {
                if k > 0 {
                    assert(r[k] == rest[k - 1]);
                }
            }
        } else {
            lemma_collapsed_no_cr(s, i + 1, run);
            assert(r =~= newlines_collapsed_from(s, i + 1, run));
        }
    }
    assert forall|k: int| 0 <= k < r.len() implies #[trigger] r[k] != '\r' by {}
}

/// The text of a chapter never holds a carriage return, and neither starts
/// nor ends with whitespace (it is its own `trim`).
pub proof fn law_cleaned_text_is_trimmed_without_cr(raw: Seq<char>)
    ensures
        forall|k: int| 0 <= k < cleaned_text(raw).len() ==> #[trigger] cleaned_text(raw)[k] != '\r',
        cleaned_text(raw).len() > 0 ==> !crate::text::is_ws(cleaned_text(raw)[0]) && !crate::text::is_ws(
            cleaned_text(raw).last(),
        ),
{
    let c = newlines_collapsed_from(entities_decoded(untagged_text_from(raw, 0, false, false)), 0, 0);
    lemma_collapsed_no_cr(entities_decoded(untagged_text_from(raw, 0, false, false)), 0, 0);
    let a = crate::text::skip_ws(c, 0);
    crate::text::lemma_skip_ws(c, 0);
    let b = crate::text::skip_ws_back(c, a, c.len() as int);
    crate::text::lemma_skip_ws_back(c, a, c.len() as int);
    let t = trim(c);
    assert(t =~= c.subrange(a, b));
    assert forall|k: int| 0 <= k < t.len() implies #[trigger] t[k] != '\r' by {
        assert(t[k] == c[a + k]);
    }
    if t.len() > 0 {
        assert(t[0] == c[a]);
        assert(t.last() == c[b - 1]);
    }
}

/// The text of a chapter never has more than two newlines in a row.
pub proof fn law_cleaned_text_has_no_triple_newline(raw: Seq<char>)
    ensures
        no_triple_newline(cleaned_text(raw)),
{
    let c = newlines_collapsed_from(entities_decoded(untagged_text_from(raw, 0, false, false)), 0, 0);
    lemma_collapsed(entities_decoded(untagged_text_from(raw, 0, false, false)), 0, 0);
    let t = trim(c);
    let a = crate::text::skip_ws(c, 0);
    let b = crate::text::skip_ws_back(c, a, c.len() as int);
    crate::text::lemma_skip_ws(c, 0);
    crate::text::lemma_skip_ws_back(c, a, c.len() as int);
    assert forall|i: int| 0 <= i && i + 2 < t.len() implies !(#[trigger] t[i] == '\n' && t[i + 1] == '\n' && t[i + 2] == '\n') by {
        assert(t[i] == c[a + i]);
        assert(t[i + 1] == c[a + i + 1]);
        assert(t[i + 2] == c[a + i + 2]);
    }
}

} // verus!
