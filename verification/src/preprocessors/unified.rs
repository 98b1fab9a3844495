//! mdbook-plugins: all preprocessors in one pass, configured per plugin.
use vstd::prelude::*;
use crate::text::{sviews, to_lowercase, unicode_lowercase};

verus! {

/// The preprocessor.
pub struct UnifiedPreprocessor;

impl UnifiedPreprocessor {
    /// The name mdbook knows the preprocessor by.
    pub fn name(&self) -> (r: &'static str)
        ensures
            r@ == "mdbook-plugins"@,
    {
        "mdbook-plugins"
    }

    /// Every renderer is supported except the one named `not-supported`.
    pub fn supports_renderer(&self, renderer: &str) -> (r: bool)
        ensures
            r == (renderer@ != "not-supported"@),
    {
        !crate::text::str_eq(renderer, "not-supported")
    }
}

/// The sub-plugins, in the order they run on a chapter.
pub open spec fn all_plugins() -> Seq<Seq<char>> {
    seq![
        "toc"@,
        "emojicodes"@,
        "katex"@,
        "admonish"@,
        "alerts"@,
        "mermaid"@,
        "pikchr"@,
        "svgbob"@,
        "wavedrom"@,
        "kroki"@,
        "langtabs"@,
        "embedify"@,
        "echarts"@,
        "image-viewer"@,
    ]
}

/// The sub-plugins, in the order they run on a chapter.
pub fn all_plugin_names() -> (r: Vec<&'static str>)
    ensures
        r@.map_values(|x: &'static str| x@) == all_plugins(),
{
    let r = vec![
        "toc",
        "emojicodes",
        "katex",
        "admonish",
        "alerts",
        "mermaid",
        "pikchr",
        "svgbob",
        "wavedrom",
        "kroki",
        "langtabs",
        "embedify",
        "echarts",
        "image-viewer",
    ];
    assert(r@.map_values(|x: &'static str| x@) =~= all_plugins());
    r
}

/// The entries of the `enabled` list that are strings, lower-cased.
pub open spec fn enabled_names(l: Seq<Option<Seq<char>>>) -> Seq<Seq<char>>
    decreases l.len(),
{
    if l.len() == 0 {
        seq![]
    } else {
        enabled_names(l.drop_last()) + match l.last() {
            Some(x) => seq![unicode_lowercase(x)],
            None => seq![],
        }
    }
}

/// The sub-plugins of `ps` that are named in `names`, in the order of `ps`.
pub open spec fn named_plugins(ps: Seq<Seq<char>>, names: Seq<Seq<char>>) -> Seq<Seq<char>>
    decreases ps.len(),
{
    if ps.len() == 0 {
        seq![]
    } else {
        named_plugins(ps.drop_last(), names) + if names.contains(ps.last()) {
            seq![ps.last()]
        } else {
            seq![]
        }
    }
}

/// The sub-plugins enabled by the configuration's `enabled` value: all of
/// them when it is missing or not a list, or when the list holds `all` (in
/// any case); otherwise those it names (in any case), in their running
/// order.
pub open spec fn enabled_plugins(enabled: Option<Seq<Option<Seq<char>>>>) -> Seq<Seq<char>> {
    match enabled {
        None => all_plugins(),
        Some(l) => if enabled_names(l).contains("all"@) {
            all_plugins()
        } else {
            named_plugins(all_plugins(), enabled_names(l))
        },
    }
}

/// Reads the `enabled` value (`None` when it is missing or not a list;
/// otherwise its entries, `None` for one that is not a string).
pub fn parse_enabled_list(enabled: Option<Vec<Option<String>>>) -> (r: Vec<&'static str>)
    ensures
        r@.map_values(|x: &'static str| x@) == enabled_plugins(
            match enabled {
                Some(l) => Some(crate::renderers::office::opt_views(l@)),
                None => None,
            },
        ),
{
    let all = all_plugin_names();
    let l = match enabled {
        None => return all,
        Some(l) => l,
    };
    let ghost lv = crate::renderers::office::opt_views(l@);
    let mut names: Vec<String> = Vec::new();
    let mut i: usize = 0;
    while i < l.len()
        invariant
            i <= l.len(),
            lv == crate::renderers::office::opt_views(l@),
            sviews(names@) == enabled_names(lv.take(i as int)),
        decreases l.len() - i,
    {
        assert(lv.take(i + 1).drop_last() =~= lv.take(i as int));
        match &l[i] {
            Some(x) => {
                let ghost before = sviews(names@);
                names.push(to_lowercase(x.as_str()));
                assert(sviews(names@) =~= before.push(unicode_lowercase(x@)));
            },
            None => {},
        }
        i = i + 1;
    }
    assert(lv.take(l@.len() as int) =~= lv);
    let mut k: usize = 0;
    let mut has_all = false;
    while k < names.len()
        invariant
            k <= names.len(),
            has_all == sviews(names@).take(k as int).contains("all"@),
        decreases names.len() - k,
    {
        proof {
            let t = sviews(names@).take(k as int);
            let t1 = sviews(names@).take(k + 1);
            assert(t1 =~= t.push(names@[k as int]@));
            if t1.contains("all"@) && !t.contains("all"@) {
                let m = choose|m: int| 0 <= m < t1.len() && t1[m] == "all"@;
                assert(m == k);
            }
            if t.contains("all"@) {
                let m = choose|m: int| 0 <= m < t.len() && t[m] == "all"@;
                assert(t1[m] == "all"@);
            }
            if names@[k as int]@ == "all"@ {
                assert(t1[k as int] == "all"@);
            }
        }
        if crate::text::str_eq(names[k].as_str(), "all") {
            has_all = true;
        }
        k = k + 1;
    }
    assert(sviews(names@).take(names@.len() as int) =~= sviews(names@));
    if has_all {
        return all;
    }
    let ghost av = all@.map_values(|x: &'static str| x@);
    let mut r: Vec<&'static str> = Vec::new();
    let mut j: usize = 0;
    while j < all.len()
        invariant
            j <= all.len(),
            av == all@.map_values(|x: &'static str| x@),
            r@.map_values(|x: &'static str| x@) == named_plugins(av.take(j as int), sviews(names@)),
        decreases all.len() - j,
    {
        assert(av.take(j + 1).drop_last() =~= av.take(j as int));
        let p = all[j];
        let mut found = false;
        let mut m: usize = 0;
        while m < names.len()
            invariant
                m <= names.len(),
                found == sviews(names@).take(m as int).contains(p@),
            decreases names.len() - m,
        {
            proof {
                let t = sviews(names@).take(m as int);
                let t1 = sviews(names@).take(m + 1);
                assert(t1 =~= t.push(names@[m as int]@));
                if t1.contains(p@) && !t.contains(p@) {
                    let q = choose|q: int| 0 <= q < t1.len() && t1[q] == p@;
                    assert(q == m);
                }
                if t.contains(p@) {
                    let q = choose|q: int| 0 <= q < t.len() && t[q] == p@;
                    assert(t1[q] == p@);
                }
                if names@[m as int]@ == p@ {
                    assert(t1[m as int] == p@);
                }
            }
            if crate::text::str_eq(names[m].as_str(), p) {
                found = true;
            }
            m = m + 1;
        }
        assert(sviews(names@).take(names@.len() as int) =~= sviews(names@));
        let ghost before = r@.map_values(|x: &'static str| x@);
        if found {
            r.push(p);
            assert(r@.map_values(|x: &'static str| x@) =~= before.push(p@));
        }
        j = j + 1;
    }
    assert(av.take(all@.len() as int) =~= av);
    r
}

} // verus!
