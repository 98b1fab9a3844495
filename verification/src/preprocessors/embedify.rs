//! mdbook-embedify: `{% app options %}` tags become embedded content.
use vstd::prelude::*;
use crate::pattern::{groups_view, pieces_view, regex_pieces, regex_split};
use crate::text::sviews;

verus! {

/// The preprocessor.
pub struct EmbedifyPreprocessor;

impl EmbedifyPreprocessor {
    /// The name mdbook knows the preprocessor by.
    pub fn name(&self) -> (r: &'static str)
        ensures
            r@ == "mdbook-embedify"@,
    {
        "mdbook-embedify"
    }

    /// Only the HTML renderer is supported.
    pub fn supports_renderer(&self, renderer: &str) -> (r: bool)
        ensures
            r == (renderer@ == "html"@),
    {
        crate::text::str_eq(renderer, "html")
    }
}

/// A YouTube tag: `{% youtube ID %}` (the id may be quoted).
pub const YOUTUBE_TAG: &'static str = "(?ms)\\{%\\s*youtube\\s+[\"']?(?P<id>[a-zA-Z0-9_-]+)[\"']?\\s*%}";
/// A CodePen tag: `{% codepen USER SLUG [default-tab=TAB] %}`.
pub const CODEPEN_TAG: &'static str = "(?ms)\\{%\\s*codepen\\s+(?P<user>[^\\s]+)\\s+(?P<slug>[^\\s]+)\\s*(?:default-tab=(?P<tab>[^\\s]+))?\\s*%}";
/// A Giscus tag: `{% giscus repo=R repo-id=I category=C %}`.
pub const GISCUS_TAG: &'static str = "(?ms)\\{%\\s*giscus\\s+repo=(?P<repo>[^\\s%]+)\\s+repo-id=(?P<repo_id>[^\\s%]+)\\s+category=(?P<cat>[^\\s%]+)\\s*%}";

/// The kinds of embedded content.
pub enum Embed {
    YouTube,
    CodePen,
    Giscus,
}

/// The pattern of a kind's tag.
pub open spec fn embed_pattern(kind: Embed) -> Seq<char> {
    match kind {
        Embed::YouTube => YOUTUBE_TAG@,
        Embed::CodePen => CODEPEN_TAG@,
        Embed::Giscus => GISCUS_TAG@,
    }
}

/// The text of capture group `i` (empty when the match leaves it unset).
pub open spec fn group_text(g: Seq<Option<Seq<char>>>, i: int) -> Seq<char> {
    if 0 <= i < g.len() {
        match g[i] {
            Some(t) => t,
            None => seq![],
        }
    } else {
        seq![]
    }
}

/// The text of capture group `i` (see `group_text`).
pub fn group_str(g: &Vec<Option<String>>, i: usize) -> (r: String)
    ensures
        r@ == group_text(groups_view(g@), i as int),
{
    if i < g.len() {
        match &g[i] {
            Some(t) => t.clone(),
            None => String::new(),
        }
    } else {
        String::new()
    }
}

/// The HTML a tag becomes, from its capture groups; a CodePen tag without
/// a default tab shows the result tab.
pub open spec fn embed_html(kind: Embed, g: Seq<Option<Seq<char>>>) -> Seq<char> {
    match kind {
        Embed::YouTube => "<div class=\"embedify-wrapper embedify-youtube\">\n<iframe width=\"560\" height=\"315\" src=\"https://www.youtube.com/embed/"@
            + group_text(g, 1) + "\" \nframeborder=\"0\" allowfullscreen></iframe>\n</div>"@,
        Embed::CodePen => "<div class=\"embedify-wrapper embedify-codepen\">\n<iframe height=\"300\" style=\"width: 100%;\" scrolling=\"no\" \nsrc=\"https://codepen.io/"@
            + group_text(g, 1) + "/embed/"@ + group_text(g, 2) + "?default-tab="@ + (if 3 < g.len()
            && g[3] is Some {
            group_text(g, 3)
        } else {
            "result"@
        }) + "\" \nframeborder=\"no\" loading=\"lazy\"></iframe>\n</div>"@,
        Embed::Giscus => "<div class=\"embedify-wrapper embedify-giscus\">\n<script src=\"https://giscus.app/client.js\"\ndata-repo=\""@
            + group_text(g, 1) + "\"\ndata-repo-id=\""@ + group_text(g, 2) + "\"\ndata-category=\""@
            + group_text(g, 3)
            + "\"\ndata-loading=\"lazy\"\ncrossorigin=\"anonymous\"\nasync>\n</script>\n</div>"@,
    }
}

/// The pieces put back together with each match replaced by its HTML.
pub open spec fn embeds_rebuilt(kind: Embed, pieces: Seq<(Seq<char>, Seq<Option<Seq<char>>>)>, tail: Seq<char>) -> Seq<char>
    decreases pieces.len(),
{
    if pieces.len() == 0 {
        tail
    } else {
        pieces.first().0 + embed_html(kind, pieces.first().1) + embeds_rebuilt(kind, pieces.drop_first(), tail)
    }
}

/// The content with each tag of the kind replaced by its HTML.
pub open spec fn embeds_replaced(kind: Embed, content: Seq<char>) -> Seq<char> {
    let (pieces, tail) = regex_pieces(embed_pattern(kind), content);
    embeds_rebuilt(kind, pieces, tail)
}

/// Appends the text of a capture group.
fn push_group(out: &mut String, g: &Vec<Option<String>>, i: usize)
    ensures
        final(out)@ == old(out)@ + group_text(groups_view(g@), i as int),
{
    if i < g.len() {
        match &g[i] {
            Some(t) => out.append(t.as_str()),
            None => {},
        }
    }
}

/// Appends the HTML of one tag.
fn push_embed(out: &mut String, kind: &Embed, g: &Vec<Option<String>>)
    ensures
        final(out)@ == old(out)@ + embed_html(*kind, groups_view(g@)),
{
    match kind {
        Embed::YouTube => {
            out.append("<div class=\"embedify-wrapper embedify-youtube\">\n<iframe width=\"560\" height=\"315\" src=\"https://www.youtube.com/embed/");
            push_group(out, g, 1);
            out.append("\" \nframeborder=\"0\" allowfullscreen></iframe>\n</div>");
        },
        Embed::CodePen => {
            out.append("<div class=\"embedify-wrapper embedify-codepen\">\n<iframe height=\"300\" style=\"width: 100%;\" scrolling=\"no\" \nsrc=\"https://codepen.io/");
            push_group(out, g, 1);
            out.append("/embed/");
            push_group(out, g, 2);
            out.append("?default-tab=");
            if g.len() > 3 && g[3].is_some() {
                push_group(out, g, 3);
            } else {
                out.append("result");
            }
            out.append("\" \nframeborder=\"no\" loading=\"lazy\"></iframe>\n</div>");
        },
        Embed::Giscus => {
            out.append("<div class=\"embedify-wrapper embedify-giscus\">\n<script src=\"https://giscus.app/client.js\"\ndata-repo=\"");
            push_group(out, g, 1);
            out.append("\"\ndata-repo-id=\"");
            push_group(out, g, 2);
            out.append("\"\ndata-category=\"");
            push_group(out, g, 3);
            out.append("\"\ndata-loading=\"lazy\"\ncrossorigin=\"anonymous\"\nasync>\n</script>\n</div>");
        },
    }
}

/// Replaces each tag of a kind by its HTML (see `embeds_replaced`).
pub fn replace_embeds(content: &str, kind: Embed) -> (r: String)
    ensures
        r@ == embeds_replaced(kind, content@),
{
    let pattern = match kind {
        Embed::YouTube => YOUTUBE_TAG,
        Embed::CodePen => CODEPEN_TAG,
        Embed::Giscus => GISCUS_TAG,
    };
    let (pieces, tail) = regex_split(pattern, content);
    let ghost pv = pieces_view(pieces@);
    let mut out = String::new();
    let mut i: usize = 0;
    assert(pv.skip(0) =~= pv);
    while i < pieces.len()
        invariant
            i <= pieces.len(),
            pv == pieces_view(pieces@),
            embeds_rebuilt(kind, pv, tail@) == out@ + embeds_rebuilt(kind, pv.skip(i as int), tail@),
        decreases pieces.len() - i,
    {
        out.append(pieces[i].0.as_str());
        push_embed(&mut out, &kind, &pieces[i].1);
        assert(pv.skip(i as int).drop_first() =~= pv.skip(i + 1));
        i = i + 1;
    }
    out.append(tail.as_str());
    out
}

/// Replaces the YouTube tags.
pub fn replace_youtube(content: &str) -> (r: String)
    ensures
        r@ == embeds_replaced(Embed::YouTube, content@),
{
    replace_embeds(content, Embed::YouTube)
}

/// Replaces the CodePen tags.
pub fn replace_codepen(content: &str) -> (r: String)
    ensures
        r@ == embeds_replaced(Embed::CodePen, content@),
{
    replace_embeds(content, Embed::CodePen)
}

/// Replaces the Giscus tags.
pub fn replace_giscus(content: &str) -> (r: String)
    ensures
        r@ == embeds_replaced(Embed::Giscus, content@),
{
    replace_embeds(content, Embed::Giscus)
}

/// A chapter with its YouTube, then CodePen, then Giscus tags replaced.
pub open spec fn embedified(content: Seq<char>) -> Seq<char> {
    embeds_replaced(Embed::Giscus, embeds_replaced(Embed::CodePen, embeds_replaced(Embed::YouTube, content)))
}

/// Replaces the embed tags of a chapter (see `embedified`).
pub fn process_chapter(content: &str) -> (r: String)
    ensures
        r@ == embedified(content@),
{
    let a = replace_youtube(content);
    let b = replace_codepen(a.as_str());
    replace_giscus(b.as_str())
}

/// The preprocessor pass over a book: the content of every chapter
/// processed. Reading the book from mdbook and writing it back is left to
/// the caller.
pub fn run(chapters: &[String]) -> (r: Vec<String>)
    ensures
        r.len() == chapters.len(),
        forall|i: int| 0 <= i < chapters.len() ==> #[trigger] r[i]@ == embedified(chapters[i]@),
{
    let mut r: Vec<String> = Vec::new();
    let mut i: usize = 0;
    while i < chapters.len()
        invariant
            i <= chapters.len(),
            r.len() == i,
            forall|k: int| 0 <= k < i ==> #[trigger] r[k]@ == embedified(chapters[k]@),
        decreases chapters.len() - i,
    {
        r.push(process_chapter(chapters[i].as_str()));
        i = i + 1;
    }
    r
}

} // verus!
