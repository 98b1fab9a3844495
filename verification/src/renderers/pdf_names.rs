//! The named destinations of a printed PDF: the pages that the names of the
//! book's headings point at, read from the document catalog's `/Dests`
//! dictionary and its `/Names` → `/Dests` name tree.
use vstd::prelude::*;
use crate::renderers::pdf_outline::{percent_decode_to_lossy, percent_decoded_from, utf8_lossy};

verus! {

/// A PDF object as the walk reads it: lopdf's `Object`, each reference
/// carrying the object it points at (none when the document lacks it), and
/// the kinds the walk never reads (numbers, booleans, streams, null) as
/// `Other`.
pub enum PdfObj {
    Ref(u32, u16, Option<Box<PdfObj>>),
    Name(Vec<u8>),
    Str(Vec<u8>),
    Array(Vec<PdfObj>),
    Dict(Vec<(Vec<u8>, PdfObj)>),
    Other,
}

/// A name of the document, as text: percent escapes decoded, then read as
/// UTF-8 with invalid sequences replaced.
pub open spec fn dest_name(bytes: Seq<u8>) -> Seq<char> {
    utf8_lossy(percent_decoded_from(bytes, 0))
}

/// The first entry of a dictionary under `key`.
pub open spec fn dict_index(d: Seq<(Vec<u8>, PdfObj)>, key: Seq<u8>) -> Option<int>
    decreases d.len(),
{
    if d.len() == 0 {
        None
    } else if d[0].0@ == key {
        Some(0)
    } else {
        match dict_index(d.drop_first(), key) {
            Some(i) => Some(i + 1),
            None => None,
        }
    }
}

proof fn lemma_dict_index(d: Seq<(Vec<u8>, PdfObj)>, key: Seq<u8>)
    ensures
        dict_index(d, key) matches Some(i) ==> 0 <= i < d.len() && d[i].0@ == key,
    decreases d.len(),
{
    if d.len() > 0 && d[0].0@ != key {
        lemma_dict_index(d.drop_first(), key);
    }
}

/// An object with its references followed to what they point at.
pub open spec fn resolved(o: PdfObj) -> PdfObj
    decreases o,
{
    match o {
        PdfObj::Ref(_, _, Some(t)) => resolved(*t),
        _ => o,
    }
}

/// The page a destination points at: the first element of an array when it
/// is a reference, what a reference points at, or the `/D` entry of a
/// dictionary.
pub open spec fn dest_page(o: PdfObj) -> Option<(u32, u16)>
    decreases o,
{
    match o {
        PdfObj::Array(v) => if v@.len() > 0 {
            match v@[0] {
                PdfObj::Ref(n, g, _) => Some((n, g)),
                _ => None,
            }
        } else {
            None
        },
        PdfObj::Ref(_, _, Some(t)) => dest_page(*t),
        PdfObj::Dict(d) => match dict_index(d@, seq![68u8]) {
            Some(i) => if 0 <= i < d@.len() {
                dest_page(d@[i].1)
            } else {
                None
            },
            None => None,
        },
        _ => None,
    }
}

/// The name of a name-tree entry: a name or a string.
pub open spec fn entry_name(o: PdfObj) -> Option<Seq<u8>> {
    match o {
        PdfObj::Name(n) => Some(n@),
        PdfObj::Str(s) => Some(s@),
        _ => None,
    }
}

/// The destinations of a `/Names` array from pair `k` on: each (name,
/// destination) pair whose name is a name or a string and whose
/// destination leads to a page; an odd last element is left out.
pub open spec fn name_pairs(a: Seq<PdfObj>, k: int) -> Seq<(Seq<char>, u32, u16)>
    decreases a.len() - 2 * k,
{
    if k < 0 || 2 * k + 1 >= a.len() {
        seq![]
    } else {
        (match (entry_name(a[2 * k]), dest_page(a[2 * k + 1])) {
            (Some(n), Some((p, g))) => seq![(dest_name(n), p, g)],
            _ => seq![],
        }) + name_pairs(a, k + 1)
    }
}

/// `/Names`, `/Kids` and `/Children` in bytes.
pub open spec fn names_key() -> Seq<u8> {
    seq![78u8, 97, 109, 101, 115]
}

pub open spec fn kids_key() -> Seq<u8> {
    seq![75u8, 105, 100, 115]
}

pub open spec fn children_key() -> Seq<u8> {
    seq![67u8, 104, 105, 108, 100, 114, 101, 110]
}

/// The destinations of a name tree node: what a reference points at; for a
/// dictionary, its `/Names` pairs, then the nodes under `/Kids`, then those
/// under `/Children`, in order.
pub open spec fn name_tree(o: PdfObj) -> Seq<(Seq<char>, u32, u16)>
    decreases o, 1int,
{
    match o {
        PdfObj::Ref(_, _, Some(t)) => name_tree(*t),
        PdfObj::Dict(d) => {
            let names = match dict_index(d@, names_key()) {
                Some(i) => if 0 <= i < d@.len() {
                    match d@[i].1 {
                        PdfObj::Array(a) => name_pairs(a@, 0),
                        _ => seq![],
                    }
                } else {
                    seq![]
                },
                None => seq![],
            };
            let kids = match dict_index(d@, kids_key()) {
                Some(i) => if 0 <= i < d@.len() {
                    match d@[i].1 {
                        PdfObj::Array(a) => name_forest(a@),
                        _ => seq![],
                    }
                } else {
                    seq![]
                },
                None => seq![],
            };
            let children = match dict_index(d@, children_key()) {
                Some(i) => if 0 <= i < d@.len() {
                    match d@[i].1 {
                        PdfObj::Array(a) => name_forest(a@),
                        _ => seq![],
                    }
                } else {
                    seq![]
                },
                None => seq![],
            };
            names + kids + children
        },
        _ => seq![],
    }
}

/// The destinations of a list of name tree nodes, in order.
pub open spec fn name_forest(s: Seq<PdfObj>) -> Seq<(Seq<char>, u32, u16)>
    decreases s, 0int,
{
    if s.len() == 0 {
        seq![]
    } else {
        name_tree(s[0]) + name_forest(s.drop_first())
    }
}


/// `/Dests` in bytes.
pub open spec fn dests_key() -> Seq<u8> {
    seq![68u8, 101, 115, 116, 115]
}

/// The entries of a `/Dests` dictionary that lead to a page, in order.
pub open spec fn dict_dests(d: Seq<(Vec<u8>, PdfObj)>) -> Seq<(Seq<char>, u32, u16)>
    decreases d.len(),
{
    if d.len() == 0 {
        seq![]
    } else {
        (match dest_page(d[0].1) {
            Some((p, g)) => seq![(dest_name(d[0].0@), p, g)],
            None => seq![],
        }) + dict_dests(d.drop_first())
    }
}

/// The named destinations of a document, from its catalog: the entries of
/// the catalog's `/Dests` dictionary, then those of the `/Dests` name tree
/// under `/Names`; a later entry for a name overrides an earlier one.
pub open spec fn named_dests(catalog: Seq<(Vec<u8>, PdfObj)>) -> Seq<(Seq<char>, u32, u16)> {
    let direct = match dict_index(catalog, dests_key()) {
        Some(i) => if 0 <= i < catalog.len() {
            match resolved(catalog[i].1) {
                PdfObj::Dict(dd) => dict_dests(dd@),
                _ => seq![],
            }
        } else {
            seq![]
        },
        None => seq![],
    };
    let tree = match dict_index(catalog, names_key()) {
        Some(i) => if 0 <= i < catalog.len() {
            match resolved(catalog[i].1) {
                PdfObj::Dict(nd) => match dict_index(nd@, dests_key()) {
                    Some(j) => if 0 <= j < nd@.len() {
                        name_tree(nd@[j].1)
                    } else {
                        seq![]
                    },
                    None => seq![],
                },
                _ => seq![],
            }
        } else {
            seq![]
        },
        None => seq![],
    };
    direct + tree
}

/// The views of named destinations.
pub open spec fn triples_view(v: Seq<(String, u32, u16)>) -> Seq<(Seq<char>, u32, u16)> {
    v.map_values(|x: (String, u32, u16)| (x.0@, x.1, x.2))
}

fn bytes_eq(a: &Vec<u8>, b: &[u8]) -> (r: bool)
    ensures
        r == (a@ == b@),
{
    if a.len() != b.len() {
        return false;
    }
    let mut i: usize = 0;
    while i < a.len()
        invariant
            i <= a.len() == b@.len(),
            forall|k: int| 0 <= k < i ==> a@[k] == b@[k],
        decreases a.len() - i,
    {
        if a[i] != b[i] {
            return false;
        }
        i = i + 1;
    }
    assert(a@ =~= b@);
    true
}

fn dict_index_exec(d: &Vec<(Vec<u8>, PdfObj)>, key: &[u8]) -> (r: Option<usize>)
    ensures
        match r {
            Some(i) => dict_index(d@, key@) == Some(i as int),
            None => dict_index(d@, key@) is None,
        },
{
    let mut i: usize = 0;
    assert(d@.skip(0) =~= d@);
    assert(dict_index(d@, key@) == match dict_index(d@.skip(0), key@) {
        Some(j) => Some(j + 0),
        None => None,
    });
    while i < d.len()
        invariant
            i <= d.len(),
            dict_index(d@, key@) == match dict_index(d@.skip(i as int), key@) {
                Some(j) => Some(j + i),
                None => None,
            },
        decreases d.len() - i,
    {
        assert(d@.skip(i as int).drop_first() =~= d@.skip(i + 1));
        if bytes_eq(&d[i].0, key) {
            return Some(i);
        }
        i = i + 1;
    }
    None
}

/// Follows references (see `resolved`).
fn resolved_exec(o: &PdfObj) -> (r: &PdfObj)
    ensures
        *r == resolved(*o),
    decreases o,
{
    match o {
        PdfObj::Ref(_, _, Some(t)) => resolved_exec(t),
        _ => o,
    }
}

/// The page a destination points at (see `dest_page`).
pub fn dest_page_exec(o: &PdfObj) -> (r: Option<(u32, u16)>)
    ensures
        r == dest_page(*o),
    decreases o,
{
    match o {
        PdfObj::Array(v) => if v.len() > 0 {
            match &v[0] {
                PdfObj::Ref(n, g, _) => Some((*n, *g)),
                _ => None,
            }
        } else {
            None
        },
        PdfObj::Ref(_, _, Some(t)) => dest_page_exec(t),
        PdfObj::Dict(d) => {
            let key: [u8; 1] = [68u8];
            assert(key@ =~= seq![68u8]);
            match dict_index_exec(d, &key) {
                Some(i) => {
                    proof {
                        lemma_dict_index(d@, seq![68u8]);
                    }
                    dest_page_exec(&d[i].1)
                },
                None => None,
            }
        },
        _ => None,
    }
}

fn push_named(out: &mut Vec<(String, u32, u16)>, name: &Vec<u8>, p: (u32, u16))
    ensures
        triples_view(final(out)@) == triples_view(old(out)@).push((dest_name(name@), p.0, p.1)),
{
    let s = percent_decode_to_lossy(name.as_slice());
    out.push((s, p.0, p.1));
    assert(triples_view(out@) =~= triples_view(old(out)@).push((dest_name(name@), p.0, p.1)));
}

fn name_pairs_exec(a: &Vec<PdfObj>, out: &mut Vec<(String, u32, u16)>)
    ensures
        triples_view(final(out)@) == triples_view(old(out)@) + name_pairs(a@, 0),
{
    let mut k: usize = 0;
    while k < a.len() / 2
        invariant
            k <= a.len() / 2,
            triples_view(out@) + name_pairs(a@, k as int) == triples_view(old(out)@) + name_pairs(a@, 0),
        decreases a.len() / 2 - k,
    {
        let ghost before = triples_view(out@);
        let name = match &a[2 * k] {
            PdfObj::Name(n) => Some(n),
            PdfObj::Str(s) => Some(s),
            _ => None,
        };
        match (name, dest_page_exec(&a[2 * k + 1])) {
            (Some(n), Some(p)) => {
                push_named(out, n, p);
            },
            _ => {},
        }
        assert(before + name_pairs(a@, k as int) =~= triples_view(out@) + name_pairs(a@, k + 1));
        k = k + 1;
    }
    assert(name_pairs(a@, k as int) =~= Seq::<(Seq<char>, u32, u16)>::empty());
    assert(triples_view(out@) + name_pairs(a@, k as int) =~= triples_view(out@));
}

fn name_tree_exec(o: &PdfObj, out: &mut Vec<(String, u32, u16)>)
    ensures
        triples_view(final(out)@) == triples_view(old(out)@) + name_tree(*o),
    decreases o, 1int,
{
    match o {
        PdfObj::Ref(_, _, Some(t)) => name_tree_exec(t, out),
        PdfObj::Dict(d) => {
            let ghost start = triples_view(out@);
            let names: [u8; 5] = [78u8, 97, 109, 101, 115];
            let kids: [u8; 4] = [75u8, 105, 100, 115];
            let children: [u8; 8] = [67u8, 104, 105, 108, 100, 114, 101, 110];
            assert(names@ =~= names_key() && kids@ =~= kids_key() && children@ =~= children_key());
            proof {
                lemma_dict_index(d@, names_key());
                lemma_dict_index(d@, kids_key());
                lemma_dict_index(d@, children_key());
            }
            match dict_index_exec(d, &names) {
                Some(i) => match &d[i].1 {
                    PdfObj::Array(a) => name_pairs_exec(a, out),
                    _ => {},
                },
                None => {},
            }
            let ghost after_names = triples_view(out@);
            match dict_index_exec(d, &kids) {
                Some(i) => match &d[i].1 {
                    PdfObj::Array(a) => name_forest_exec(a, out),
                    _ => {},
                },
                None => {},
            }
            let ghost after_kids = triples_view(out@);
            match dict_index_exec(d, &children) {
                Some(i) => match &d[i].1 {
                    PdfObj::Array(a) => name_forest_exec(a, out),
                    _ => {},
                },
                None => {},
            }
            assert(triples_view(out@) =~= start + name_tree(*o));
        },
        _ => {
            assert(triples_view(out@) =~= triples_view(old(out)@) + name_tree(*o));
        },
    }
}

fn name_forest_exec(v: &Vec<PdfObj>, out: &mut Vec<(String, u32, u16)>)
    ensures
        triples_view(final(out)@) == triples_view(old(out)@) + name_forest(v@),
    decreases v, 0int,
{
    let mut i: usize = 0;
    assert(v@.skip(0) =~= v@);
    while i < v.len()
        invariant
            i <= v.len(),
            triples_view(out@) + name_forest(v@.skip(i as int)) == triples_view(old(out)@) + name_forest(v@),
        decreases v.len() - i,
    {
        let ghost before = triples_view(out@);
        assert(v@.skip(i as int)[0] == v@[i as int]);
        assert(v@.skip(i as int).drop_first() =~= v@.skip(i + 1));
        name_tree_exec(&v[i], out);
        assert(before + name_forest(v@.skip(i as int)) =~= triples_view(out@) + name_forest(v@.skip(i + 1)));
        i = i + 1;
    }
    assert(name_forest(v@.skip(i as int)) =~= Seq::<(Seq<char>, u32, u16)>::empty());
    assert(triples_view(out@) + name_forest(v@.skip(i as int)) =~= triples_view(out@));
}

fn dict_dests_exec(d: &Vec<(Vec<u8>, PdfObj)>, out: &mut Vec<(String, u32, u16)>)
    ensures
        triples_view(final(out)@) == triples_view(old(out)@) + dict_dests(d@),
{
    let mut i: usize = 0;
    assert(d@.skip(0) =~= d@);
    while i < d.len()
        invariant
            i <= d.len(),
            triples_view(out@) + dict_dests(d@.skip(i as int)) == triples_view(old(out)@) + dict_dests(d@),
        decreases d.len() - i,
    {
        let ghost before = triples_view(out@);
        assert(d@.skip(i as int)[0] == d@[i as int]);
        assert(d@.skip(i as int).drop_first() =~= d@.skip(i + 1));
        match dest_page_exec(&d[i].1) {
            Some(p) => push_named(out, &d[i].0, p),
            None => {},
        }
        assert(before + dict_dests(d@.skip(i as int)) =~= triples_view(out@) + dict_dests(d@.skip(i + 1)));
        i = i + 1;
    }
    assert(dict_dests(d@.skip(i as int)) =~= Seq::<(Seq<char>, u32, u16)>::empty());
    assert(triples_view(out@) + dict_dests(d@.skip(i as int)) =~= triples_view(out@));
}

/// The named destinations of a document, read from its catalog's entries
/// (see `named_dests`).
pub fn resolve_dests(catalog: &Vec<(Vec<u8>, PdfObj)>) -> (r: Vec<(String, u32, u16)>)
    ensures
        triples_view(r@) == named_dests(catalog@),
{
    let mut out: Vec<(String, u32, u16)> = Vec::new();
    let dests: [u8; 5] = [68u8, 101, 115, 116, 115];
    let names: [u8; 5] = [78u8, 97, 109, 101, 115];
    assert(dests@ =~= dests_key() && names@ =~= names_key());
    proof {
        lemma_dict_index(catalog@, dests_key());
        lemma_dict_index(catalog@, names_key());
    }
    assert(triples_view(out@) =~= Seq::<(Seq<char>, u32, u16)>::empty());
    match dict_index_exec(catalog, &dests) {
        Some(i) => match resolved_exec(&catalog[i].1) {
            PdfObj::Dict(dd) => dict_dests_exec(dd, &mut out),
            _ => {},
        },
        None => {},
    }
    let ghost direct = triples_view(out@);
    match dict_index_exec(catalog, &names) {
        Some(i) => match resolved_exec(&catalog[i].1) {
            PdfObj::Dict(nd) => {
                proof {
                    lemma_dict_index(nd@, dests_key());
                }
                match dict_index_exec(nd, &dests) {
                    Some(j) => name_tree_exec(&nd[j].1, &mut out),
                    None => {},
                }
            },
            _ => {},
        },
        None => {},
    }
    assert(triples_view(out@) =~= named_dests(catalog@));
    out
}
} // verus!
