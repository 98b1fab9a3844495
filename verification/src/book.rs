//! The parts of an mdbook book that the renderers read, as plain values:
//! the items of the summary, nested as in the book.
use vstd::prelude::*;

verus! {

broadcast use vstd::string::group_string_axioms;

/// A chapter: its name, its Markdown, its source path (none for a draft)
/// and the items nested under it.
pub struct Chapter {
    pub name: String,
    pub content: String,
    pub path: Option<String>,
    pub sub_items: Vec<BookItem>,
}

/// An item of the summary.
pub enum BookItem {
    Chapter(Chapter),
    Separator,
    PartTitle(String),
}

/// The (name, text) pairs the office renderer works on, from position `i`
/// of `items` on: each chapter followed by the chapters nested under it,
/// and each part title as a one-line heading.
pub open spec fn chapter_list(items: Seq<BookItem>, i: int) -> Seq<(Seq<char>, Seq<char>)>
    decreases items, items.len() - i,
{
    if i < 0 || i >= items.len() {
        seq![]
    } else {
        match items[i] {
            BookItem::Chapter(c) => seq![(c.name@, c.content@)] + nested_chapters(c.sub_items@, 0)
                + chapter_list(items, i + 1),
            BookItem::PartTitle(t) => seq![(t@, "# "@ + t@ + "\n"@)] + chapter_list(items, i + 1),
            BookItem::Separator => chapter_list(items, i + 1),
        }
    }
}

/// The (name, text) pairs of the chapters nested in `items`, from position
/// `i` on, each followed by its own nested chapters (part titles and
/// separators are passed over).
pub open spec fn nested_chapters(items: Seq<BookItem>, i: int) -> Seq<(Seq<char>, Seq<char>)>
    decreases items, items.len() - i,
{
    if i < 0 || i >= items.len() {
        seq![]
    } else {
        match items[i] {
            BookItem::Chapter(c) => seq![(c.name@, c.content@)] + nested_chapters(c.sub_items@, 0)
                + nested_chapters(items, i + 1),
            _ => nested_chapters(items, i + 1),
        }
    }
}

/// The views of a list of (name, text) pairs.
pub open spec fn pair_views(v: Seq<(String, String)>) -> Seq<(Seq<char>, Seq<char>)> {
    v.map_values(|p: (String, String)| (p.0@, p.1@))
}

/// Appends the nested chapters of `items`.
fn collect_sub(items: &Vec<BookItem>, out: &mut Vec<(String, String)>)
    ensures
        pair_views(final(out)@) == pair_views(old(out)@) + nested_chapters(items@, 0),
    decreases items@, 0int,
{
    let mut i: usize = 0;
    while i < items.len()
        invariant
            i <= items.len(),
            pair_views(out@) + nested_chapters(items@, i as int) == pair_views(old(out)@)
                + nested_chapters(items@, 0),
        decreases items.len() - i,
    {
        match &items[i] {
            BookItem::Chapter(c) => {
                let ghost before = pair_views(out@);
                out.push((c.name.clone(), c.content.clone()));
                assert(pair_views(out@) =~= before + seq![(c.name@, c.content@)]);
                proof {
                    assert(decreases_to!(items@ => items@[i as int]));
                }
                collect_sub(&c.sub_items, out);
            },
            _ => {},
        }
        i = i + 1;
    }
}

/// The chapters of a book as (name, text) pairs (see `chapter_list`).
pub fn collect_chapters(sections: &Vec<BookItem>) -> (r: Vec<(String, String)>)
    ensures
        pair_views(r@) == chapter_list(sections@, 0),
{
    let mut ch: Vec<(String, String)> = Vec::new();
    let mut i: usize = 0;
    while i < sections.len()
        invariant
            i <= sections.len(),
            pair_views(ch@) + chapter_list(sections@, i as int) == chapter_list(sections@, 0),
        decreases sections.len() - i,
    {
        match &sections[i] {
            BookItem::Chapter(c) => {
                let ghost before = pair_views(ch@);
                ch.push((c.name.clone(), c.content.clone()));
                assert(pair_views(ch@) =~= before + seq![(c.name@, c.content@)]);
                collect_sub(&c.sub_items, &mut ch);
            },
            BookItem::PartTitle(t) => {
                let mut text = String::new();
                text.append("# ");
                text.append(t.as_str());
                text.append("\n");
                let ghost before = pair_views(ch@);
                ch.push((t.clone(), text));
                assert(pair_views(ch@) =~= before + seq![(t@, "# "@ + t@ + "\n"@)]);
            },
            BookItem::Separator => {},
        }
        i = i + 1;
    }
    ch
}

/// Every chapter of a book, nested ones included, as (name, text) pairs in
/// the order `Book::iter` visits them.
pub fn all_chapters(items: &Vec<BookItem>) -> (r: Vec<(String, String)>)
    ensures
        pair_views(r@) == nested_chapters(items@, 0),
{
    let mut r: Vec<(String, String)> = Vec::new();
    assert(pair_views(r@) =~= seq![]);
    collect_sub(items, &mut r);
    assert(pair_views(r@) =~= nested_chapters(items@, 0));
    r
}


/// A chapter's own path, as a list of none or one.
pub open spec fn own_path(p: Option<String>) -> Seq<Seq<char>> {
    match p {
        Some(x) => seq![x@],
        None => seq![],
    }
}

/// The source paths of the chapters in `items` from position `i` on, each
/// followed by those of the chapters nested under it (drafts, which have no
/// path, are passed over).
pub open spec fn chapter_paths(items: Seq<BookItem>, i: int) -> Seq<Seq<char>>
    decreases items, items.len() - i,
{
    if i < 0 || i >= items.len() {
        seq![]
    } else {
        match items[i] {
            BookItem::Chapter(c) => own_path(c.path) + chapter_paths(c.sub_items@, 0) + chapter_paths(
                items,
                i + 1,
            ),
            _ => chapter_paths(items, i + 1),
        }
    }
}

fn collect_paths(items: &Vec<BookItem>, out: &mut Vec<String>)
    ensures
        crate::text::sviews(final(out)@) == crate::text::sviews(old(out)@) + chapter_paths(items@, 0),
    decreases items@, 0int,
{
    let mut i: usize = 0;
    while i < items.len()
        invariant
            i <= items.len(),
            crate::text::sviews(out@) + chapter_paths(items@, i as int) == crate::text::sviews(old(out)@)
                + chapter_paths(items@, 0),
        decreases items.len() - i,
    {
        match &items[i] {
            BookItem::Chapter(c) => {
                let ghost before = crate::text::sviews(out@);
                match &c.path {
                    Some(p) => {
                        out.push(p.clone());
                        assert(crate::text::sviews(out@) =~= before + seq![p@]);
                    },
                    None => {
                        assert(crate::text::sviews(out@) =~= before + Seq::<Seq<char>>::empty());
                    },
                }
                proof {
                    assert(decreases_to!(items@ => items@[i as int]));
                }
                collect_paths(&c.sub_items, out);
            },
            _ => {},
        }
        i = i + 1;
    }
}

/// The source paths of every chapter of a book, nested ones included, in
/// the order `Book::iter` visits them (see `chapter_paths`).
pub fn extract_chapter_paths(items: &Vec<BookItem>) -> (r: Vec<String>)
    ensures
        crate::text::sviews(r@) == chapter_paths(items@, 0),
{
    let mut r: Vec<String> = Vec::new();
    assert(crate::text::sviews(r@) =~= seq![]);
    collect_paths(items, &mut r);
    assert(crate::text::sviews(r@) =~= chapter_paths(items@, 0));
    r
}

} // verus!
