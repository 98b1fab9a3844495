//! The regular expressions some plugins match with the `regex` crate.
use vstd::prelude::*;

verus! {

/// What `Regex::new(pattern)` followed by `find(input)` gives: the text of
/// the leftmost-first match of `pattern` in `input`; `None` when nothing
/// matches or the pattern does not compile.
pub uninterp spec fn regex_first_match(pattern: Seq<char>, input: Seq<char>) -> Option<Seq<char>>;

/// What `Regex::new(pattern)` followed by `replace_all(input, rep)` gives:
/// `input` with every non-overlapping match replaced by `rep`; `input`
/// itself when the pattern does not compile.
pub uninterp spec fn regex_replaced_all(pattern: Seq<char>, input: Seq<char>, rep: Seq<char>) -> Seq<char>;

/// The view of an optional string.
pub open spec fn opt_string_view(o: Option<String>) -> Option<Seq<char>> {
    match o {
        Some(t) => Some(t@),
        None => None,
    }
}

/// `regex::Regex::find`: the text of the first match (see `regex_first_match`).
#[verifier::external_body]
pub fn regex_find(pattern: &str, input: &str) -> (r: Option<String>)
    ensures
        opt_string_view(r) == regex_first_match(pattern@, input@),
{
    let re = match regex::Regex::new(pattern) {
        Ok(re) => re,
        Err(_) => return None,
    };
    match re.find(input) {
        Some(m) => Some(m.as_str().to_string()),
        None => None,
    }
}

/// `regex::Regex::replace_all` (see `regex_replaced_all`). With an empty
/// replacement the matches are only removed, so the text gets no longer.
#[verifier::external_body]
pub fn regex_replace_all(pattern: &str, input: &str, rep: &str) -> (r: String)
    ensures
        r@ == regex_replaced_all(pattern@, input@, rep@),
        rep@.len() == 0 ==> r@.len() <= input@.len(),
{
    match regex::Regex::new(pattern) {
        Ok(re) => re.replace_all(input, rep).into_owned(),
        Err(_) => input.to_string(),
    }
}

/// What `Regex::new(pattern)` followed by `captures(input)` gives for
/// capture group `group`: `None` when nothing matches (or the pattern does
/// not compile), `Some(None)` when the leftmost-first match leaves the
/// group unset, and `Some(Some(text))` with the group's text otherwise.
pub uninterp spec fn regex_first_group(pattern: Seq<char>, input: Seq<char>, group: nat) -> Option<Option<Seq<char>>>;

/// The view of an optional capture.
pub open spec fn capture_view(o: Option<Option<String>>) -> Option<Option<Seq<char>>> {
    match o {
        Some(Some(t)) => Some(Some(t@)),
        Some(None) => Some(None),
        None => None,
    }
}

/// `regex::Regex::captures` then `Captures::get(group)` (see
/// `regex_first_group`).
#[verifier::external_body]
pub fn regex_capture(pattern: &str, input: &str, group: usize) -> (r: Option<Option<String>>)
    ensures
        capture_view(r) == regex_first_group(pattern@, input@, group as nat),
{
    let re = match regex::Regex::new(pattern) {
        Ok(re) => re,
        Err(_) => return None,
    };
    match re.captures(input) {
        Some(c) => match c.get(group) {
            Some(m) => Some(Some(m.as_str().to_string())),
            None => Some(None),
        },
        None => None,
    }
}

/// What `Regex::new(pattern)` followed by `captures_iter(input)` gives,
/// cut into pieces: for each match in order, the text between the previous
/// match (or the start) and this one, with the match's capture groups
/// (group 0 is the whole match); then the text after the last match. With a
/// pattern that does not compile, no match and the whole input.
pub uninterp spec fn regex_pieces(pattern: Seq<char>, input: Seq<char>) -> (Seq<(Seq<char>, Seq<Option<Seq<char>>>)>, Seq<char>);

/// The text the pieces were cut from: each gap followed by its whole match,
/// then the tail.
pub open spec fn reassembled(pieces: Seq<(Seq<char>, Seq<Option<Seq<char>>>)>, tail: Seq<char>) -> Seq<char>
    decreases pieces.len(),
{
    if pieces.len() == 0 {
        tail
    } else {
        let p = pieces.first();
        p.0 + (if p.1.len() > 0 {
            match p.1[0] {
                Some(m) => m,
                None => seq![],
            }
        } else {
            seq![]
        }) + reassembled(pieces.drop_first(), tail)
    }
}

/// The views of capture groups.
pub open spec fn groups_view(g: Seq<Option<String>>) -> Seq<Option<Seq<char>>> {
    g.map_values(|o: Option<String>| opt_string_view(o))
}

/// The views of pieces.
pub open spec fn pieces_view(p: Seq<(String, Vec<Option<String>>)>) -> Seq<(Seq<char>, Seq<Option<Seq<char>>>)> {
    p.map_values(|x: (String, Vec<Option<String>>)| (x.0@, groups_view(x.1@)))
}

/// `regex::Regex::captures_iter`, cut into pieces (see `regex_pieces`): the
/// matches are non-overlapping spans of the input, in order, each with its
/// whole text as group 0, so the pieces put back together give the input.
#[verifier::external_body]
pub fn regex_split(pattern: &str, input: &str) -> (r: (Vec<(String, Vec<Option<String>>)>, String))
    ensures
        (pieces_view(r.0@), r.1@) == regex_pieces(pattern@, input@),
        reassembled(pieces_view(r.0@), r.1@) == input@,
        forall|i: int| 0 <= i < r.0@.len() ==> #[trigger] r.0@[i].1@.len() > 0 && r.0@[i].1@[0] is Some,
{
    let mut pieces = Vec::new();
    let re = match regex::Regex::new(pattern) { Ok(re) => re, Err(_) => return (pieces, input.to_string()) };
    let mut last: usize = 0;
    for c in re.captures_iter(input) {
        let mut groups = Vec::new();
        for g in c.iter() {
            groups.push(match g { Some(m) => Some(m.as_str().to_string()), None => None });
        }
        let Some(whole) = c.get(0) else { continue };
        pieces.push((input[last..whole.start()].to_string(), groups));
        last = whole.end();
    }
    (pieces, input[last..].to_string())
}

} // verus!
