//! mdbook-linkcheck: checks every link of the book.
use vstd::prelude::*;
use crate::book::{all_chapters, nested_chapters, pair_views, BookItem};
use crate::build_search::{insert_sorted, strictly_sorted};
use crate::pattern::{groups_view, pieces_view, regex_pieces, regex_split};
use crate::preprocessors::embedify::group_text;
use crate::text::{starts_with, starts_with_str, sviews, to_chars, vviews};

verus! {

/// The renderer.
pub struct LinkCheckRenderer;

impl LinkCheckRenderer {
    /// The name mdbook knows the renderer by.
    pub fn name(&self) -> (r: &'static str)
        ensures
            r@ == "linkcheck"@,
    {
        "linkcheck"
    }
}

/// A Markdown link: `[text](target)`.
pub const LINK: &'static str = "\\[([^\\]]+)\\]\\(([^)]+)\\)";

/// A link target worth checking: not an anchor, not a mail address.
pub open spec fn checked_target(url: Seq<char>) -> bool {
    !starts_with(url, "#"@) && !starts_with(url, "mailto:"@)
}

/// The targets of the links of a text, in order.
pub open spec fn link_targets(content: Seq<char>) -> Seq<Seq<char>> {
    regex_pieces(LINK@, content).0.map_values(|p: (Seq<char>, Seq<Option<Seq<char>>>)| group_text(p.1, 2))
}

/// `url` is the target of a link of some chapter, and worth checking.
pub open spec fn linked(chapters: Seq<(Seq<char>, Seq<char>)>, url: Seq<char>) -> bool {
    checked_target(url) && exists|k: int| 0 <= k < chapters.len() && #[trigger] link_targets(chapters[k].1).contains(url)
}

/// The link targets of every chapter of a book (nested chapters included)
/// that are worth checking, each once, in increasing order.
pub fn collect_links(sections: &Vec<BookItem>) -> (r: Vec<String>)
    ensures
        strictly_sorted(sviews(r@)),
        forall|x: Seq<char>| #[trigger] sviews(r@).contains(x) <==> linked(nested_chapters(sections@, 0), x),
{
    let chapters = all_chapters(sections);
    let ghost cv = pair_views(chapters@);
    let mut links: Vec<Vec<char>> = Vec::new();
    let mut c: usize = 0;
    while c < chapters.len()
        invariant
            c <= chapters.len(),
            cv == pair_views(chapters@),
            strictly_sorted(vviews(links@)),
            forall|x: Seq<char>| #[trigger] vviews(links@).contains(x) <==> linked(cv.take(c as int), x),
        decreases chapters.len() - c,
    {
        let (pieces, _tail) = regex_split(LINK, chapters[c].1.as_str());
        let ghost pv = pieces_view(pieces@);
        let ghost targets = link_targets(cv[c as int].1);
        assert(targets == pv.map_values(|p: (Seq<char>, Seq<Option<Seq<char>>>)| group_text(p.1, 2)));
        let ghost before = vviews(links@);
        let mut i: usize = 0;
        while i < pieces.len()
            invariant
                i <= pieces.len(),
                pv == pieces_view(pieces@),
                targets == pv.map_values(|p: (Seq<char>, Seq<Option<Seq<char>>>)| group_text(p.1, 2)),
                strictly_sorted(vviews(links@)),
                forall|x: Seq<char>| #[trigger] vviews(links@).contains(x) <==> (before.contains(x) || (checked_target(x)
                    && targets.take(i as int).contains(x))),
            decreases pieces.len() - i,
        {
            let g = &pieces[i].1;
            let url: Vec<char> = if g.len() > 2 {
                match &g[2] {
                    Some(t) => to_chars(t.as_str()),
                    None => Vec::new(),
                }
            } else {
                Vec::new()
            };
            assert(url@ == targets[i as int]);
            let keep = !starts_with_str(&url, "#") && !starts_with_str(&url, "mailto:");
            let ghost uv = url@;
            if keep {
                insert_sorted(&mut links, url);
            }
            proof {
                let w = targets.take(i as int);
                let w1 = targets.take(i + 1);
                assert(w1 =~= w.push(uv));
                assert forall|x: Seq<char>| #[trigger] w1.contains(x) <==> (w.contains(x) || x == uv) by {
                    if w1.contains(x) {
                        let k = choose|k: int| 0 <= k < w1.len() && w1[k] == x;
                        if k < w.len() {
                            assert(w[k] == x);
                        }
                    }
                    if w.contains(x) {
                        let k = choose|k: int| 0 <= k < w.len() && w[k] == x;
                        assert(w1[k] == x);
                    }
                    if x == uv {
                        assert(w1[i as int] == x);
                    }
                }
            }
            i = i + 1;
        }
        proof {
            assert(targets.take(pieces@.len() as int) =~= targets);
            assert(cv.take(c + 1) =~= cv.take(c as int).push(cv[c as int]));
            assert forall|x: Seq<char>| #[trigger] vviews(links@).contains(x) <==> linked(cv.take(c + 1), x) by {
                let t1 = cv.take(c + 1);
                if linked(t1, x) {
                    let k = choose|k: int| 0 <= k < t1.len() && #[trigger] link_targets(t1[k].1).contains(x);
                    if k < c {
                        assert(cv.take(c as int)[k] == t1[k]);
                        assert(linked(cv.take(c as int), x));
                    } else {
                        assert(t1[k] == cv[c as int]);
                    }
                }
                if linked(cv.take(c as int), x) {
                    let k = choose|k: int| 0 <= k < c && #[trigger] link_targets(cv.take(c as int)[k].1).contains(x);
                    assert(t1[k] == cv.take(c as int)[k]);
                }
                if checked_target(x) && targets.contains(x) {
                    assert(t1[c as int] == cv[c as int]);
                }
            }
        }
        c = c + 1;
    }
    assert(cv.take(chapters@.len() as int) =~= cv);
    let mut out: Vec<String> = Vec::new();
    let mut k: usize = 0;
    while k < links.len()
        invariant
            k <= links.len(),
            sviews(out@) == vviews(links@).take(k as int),
        decreases links.len() - k,
    {
        let ghost b = sviews(out@);
        out.push(crate::text::from_chars(&links[k]));
        assert(sviews(out@) =~= b.push(links@[k as int]@));
        assert(vviews(links@).take(k + 1) =~= vviews(links@).take(k as int).push(links@[k as int]@));
        k = k + 1;
    }
    assert(vviews(links@).take(links@.len() as int) =~= vviews(links@));
    out
}

/// A link the checker asks a server about: an `http://` or `https://` one
/// (relative paths are local files).
pub open spec fn remote_link(url: Seq<char>) -> bool {
    starts_with(url, "http://"@) || starts_with(url, "https://"@)
}

/// Whether a link is asked about (see `remote_link`).
pub fn is_remote_link(url: &str) -> (r: bool)
    ensures
        r == remote_link(url@),
{
    let u = to_chars(url);
    starts_with_str(&u, "http://") || starts_with_str(&u, "https://")
}

/// A success status (2xx).
pub open spec fn success(status: u16) -> bool {
    200 <= status <= 299
}

/// Whether a status is a success (see `success`).
pub fn head_status_ok(status: u16) -> (r: bool)
    ensures
        r == success(status),
{
    200 <= status && status <= 299
}

/// Whether the answer to `HEAD` calls for a `GET` of the same link: 405, the
/// server does not take `HEAD`.
pub fn retries_with_get(head: u16) -> (r: bool)
    ensures
        r == (head == 405),
{
    head == 405
}

/// Whether a link is live, from the status of its `HEAD` request and, when
/// that was 405, of the `GET` that followed: a success to `HEAD`, or 405 then
/// a success to `GET`.
pub open spec fn live(head: u16, get: Option<u16>) -> bool {
    success(head) || (head == 405 && (get matches Some(g) && success(g)))
}

/// Decides `live`.
pub fn link_live(head: u16, get: Option<u16>) -> (r: bool)
    ensures
        r == live(head, get),
{
    if head_status_ok(head) {
        true
    } else if retries_with_get(head) {
        match get {
            Some(g) => head_status_ok(g),
            None => false,
        }
    } else {
        false
    }
}

} // verus!
