//! Text primitives over character sequences.
//!
//! Every string of the library is modelled by its view, a `Seq<char>`.
//! This module gives the mathematical meaning of the few string operations
//! the plugins are built from (substring search, line splitting, trimming,
//! replacement) together with executable versions proved against them.
//! Positions are character positions.
use vstd::prelude::*;

verus! {

broadcast use vstd::string::group_string_axioms;

// ───────────────────────── conversions ─────────────────────────

/// The characters of `s`, in order.
pub fn to_chars(s: &str) -> (v: Vec<char>)
    ensures
        v@ == s@,
{
    let mut v: Vec<char> = Vec::new();
    for c in it: s.chars()
        invariant
            v@ == it.seq().take(it.index() as int),
            it.seq() == s@,
    {
        v.push(c);
    }
    v
}

/// `String::push`: appends one character.
#[verifier::external_body]
pub fn push_char(s: &mut String, c: char)
    ensures
        final(s)@ == old(s)@.push(c),
{
    s.push(c);
}

/// Appends `v[from..to]` to `out`.
pub fn push_range(out: &mut String, v: &Vec<char>, from: usize, to: usize)
    requires
        from <= to <= v.len(),
    ensures
        final(out)@ == old(out)@ + v@.subrange(from as int, to as int),
{
    let mut i = from;
    while i < to
        invariant
            from <= i <= to <= v.len(),
            out@ == old(out)@ + v@.subrange(from as int, i as int),
        decreases to - i,
    {
        push_char(out, v[i]);
        i = i + 1;
        assert(v@.subrange(from as int, i as int) =~= v@.subrange(from as int, (i - 1) as int).push(
            v@[i - 1],
        ));
    }
}

/// Appends all of `v` to `out`.
pub fn push_all(out: &mut String, v: &Vec<char>)
    ensures
        final(out)@ == old(out)@ + v@,
{
    push_range(out, v, 0, v.len());
    assert(v@.subrange(0, v.len() as int) =~= v@);
}

/// The string whose characters are `v`.
pub fn from_chars(v: &Vec<char>) -> (s: String)
    ensures
        s@ == v@,
{
    let mut s = String::new();
    push_all(&mut s, v);
    assert(s@ =~= v@);
    s
}

/// Appends the characters of `v[from..to]` to the vector `out`.
pub fn extend_range(out: &mut Vec<char>, v: &Vec<char>, from: usize, to: usize)
    requires
        from <= to <= v.len(),
    ensures
        final(out)@ == old(out)@ + v@.subrange(from as int, to as int),
{
    let mut i = from;
    while i < to
        invariant
            from <= i <= to <= v.len(),
            out@ == old(out)@ + v@.subrange(from as int, i as int),
        decreases to - i,
    {
        out.push(v[i]);
        i = i + 1;
        assert(v@.subrange(from as int, i as int) =~= v@.subrange(from as int, (i - 1) as int).push(
            v@[i - 1],
        ));
    }
}

/// Appends the characters of `s` to the vector `out`.
pub fn extend_str(out: &mut Vec<char>, s: &str)
    ensures
        final(out)@ == old(out)@ + s@,
{
    let v = to_chars(s);
    extend_range(out, &v, 0, v.len());
    assert(v@.subrange(0, v.len() as int) =~= v@);
}

// ───────────────────────── search ─────────────────────────

/// `pat` occurs in `s` at position `i`.
pub open spec fn match_at(s: Seq<char>, pat: Seq<char>, i: int) -> bool {
    0 <= i && i + pat.len() <= s.len() && s.subrange(i, i + pat.len()) =~= pat
}

/// The first position `>= i` at which `pat` occurs in `s`.
pub open spec fn find_from(s: Seq<char>, pat: Seq<char>, i: int) -> Option<int>
    decreases s.len() - i,
{
    if i < 0 || i + pat.len() > s.len() {
        None
    } else if match_at(s, pat, i) {
        Some(i)
    } else {
        find_from(s, pat, i + 1)
    }
}

/// The first position at which `pat` occurs in `s` (`str::find`).
pub open spec fn find(s: Seq<char>, pat: Seq<char>) -> Option<int> {
    find_from(s, pat, 0)
}

/// `pat` occurs in `s` (`str::contains`).
pub open spec fn contains(s: Seq<char>, pat: Seq<char>) -> bool {
    find(s, pat) is Some
}

/// `s` begins with `pat` (`str::starts_with`).
pub open spec fn starts_with(s: Seq<char>, pat: Seq<char>) -> bool {
    pat.len() <= s.len() && s.take(pat.len() as int) =~= pat
}

/// `s` ends with `pat` (`str::ends_with`).
pub open spec fn ends_with(s: Seq<char>, pat: Seq<char>) -> bool {
    pat.len() <= s.len() && s.skip(s.len() - pat.len()) =~= pat
}

/// The last position `< i` (as a start) at which `pat` occurs, scanning down from `i - 1`.
pub open spec fn rfind_before(s: Seq<char>, pat: Seq<char>, i: int) -> Option<int>
    decreases i,
{
    if i <= 0 {
        None
    } else if match_at(s, pat, i - 1) {
        Some(i - 1)
    } else {
        rfind_before(s, pat, i - 1)
    }
}

/// The last position at which `pat` occurs in `s` (`str::rfind`).
pub open spec fn rfind(s: Seq<char>, pat: Seq<char>) -> Option<int> {
    rfind_before(s, pat, s.len() as int + 1)
}

/// What `find_from` answers: the least matching position, or none at all.
pub proof fn lemma_find_from(s: Seq<char>, pat: Seq<char>, i: int)
    requires
        0 <= i,
    ensures
        match find_from(s, pat, i) {
            Some(j) => i <= j && match_at(s, pat, j) && forall|k: int|
                i <= k < j ==> !#[trigger] match_at(s, pat, k),
            None => forall|k: int| i <= k ==> !#[trigger] match_at(s, pat, k),
        },
    decreases s.len() - i,
{
    if i + pat.len() > s.len() {
    } else if match_at(s, pat, i) {
    } else {
        lemma_find_from(s, pat, i + 1);
    }
}

/// What `rfind_before` answers: the greatest matching position below `i`.
pub proof fn lemma_rfind_before(s: Seq<char>, pat: Seq<char>, i: int)
    ensures
        match rfind_before(s, pat, i) {
            Some(j) => 0 <= j < i && match_at(s, pat, j) && forall|k: int|
                j < k < i ==> !#[trigger] match_at(s, pat, k),
            None => forall|k: int| k < i ==> !#[trigger] match_at(s, pat, k),
        },
    decreases i,
{
    if i <= 0 {
    } else if match_at(s, pat, i - 1) {
    } else {
        lemma_rfind_before(s, pat, i - 1);
    }
}

/// `s` from position `i` on with every occurrence of `pat`, searched left
/// to right without overlap, replaced by `rep` (`str::replace`; `pat` is
/// not empty).
pub open spec fn replaced_from(s: Seq<char>, pat: Seq<char>, rep: Seq<char>, i: int) -> Seq<char>
    decreases s.len() + 1 - i,
{
    if i < 0 || i > s.len() || pat.len() == 0 {
        seq![]
    } else {
        match find_from(s, pat, i) {
            Some(k) => {
                proof {
                    lemma_find_from(s, pat, i);
                }
                s.subrange(i, k) + rep + replaced_from(s, pat, rep, k + pat.len())
            },
            None => s.subrange(i, s.len() as int),
        }
    }
}

/// `str::replace` with a non-empty pattern.
pub open spec fn replaced(s: Seq<char>, pat: Seq<char>, rep: Seq<char>) -> Seq<char> {
    replaced_from(s, pat, rep, 0)
}

/// `str::replace`, computed.
pub fn replace_str(s: &Vec<char>, pat: &str, rep: &str) -> (r: Vec<char>)
    requires
        pat@.len() > 0,
    ensures
        r@ == replaced(s@, pat@, rep@),
{
    let p = to_chars(pat);
    let rp = to_chars(rep);
    let mut out: Vec<char> = Vec::new();
    let mut i: usize = 0;
    while i <= s.len()
        invariant
            i <= s.len(),
            p@ == pat@,
            rp@ == rep@,
            p@.len() > 0,
            replaced(s@, p@, rp@) == out@ + replaced_from(s@, p@, rp@, i as int),
        decreases s.len() + 1 - i,
    {
        match find_from_exec(s, &p, i) {
            Some(k) => {
                proof {
                    lemma_find_from(s@, p@, i as int);
                }
                extend_range(&mut out, s, i, k);
                extend_range(&mut out, &rp, 0, rp.len());
                assert(rp@.subrange(0, rp@.len() as int) =~= rp@);
                i = k + p.len();
            },
            None => {
                extend_range(&mut out, s, i, s.len());
                return out;
            },
        }
    }
    out
}

/// Reads an `Option<usize>` as an `Option<int>`.
pub open spec fn opt_int(r: Option<usize>) -> Option<int> {
    match r {
        Some(j) => Some(j as int),
        None => None,
    }
}

/// Decides `match_at`.
pub fn match_at_exec(s: &Vec<char>, pat: &Vec<char>, i: usize) -> (b: bool)
    ensures
        b == match_at(s@, pat@, i as int),
{
    if i > s.len() || pat.len() > s.len() - i {
        return false;
    }
    let mut k: usize = 0;
    while k < pat.len()
        invariant
            i + pat.len() <= s.len(),
            k <= pat.len(),
            forall|m: int| 0 <= m < k ==> s@[i + m] == pat@[m],
        decreases pat.len() - k,
    {
        if s[i + k] != pat[k] {
            assert(s@.subrange(i as int, i + pat.len())[k as int] != pat@[k as int]);
            return false;
        }
        k = k + 1;
    }
    assert(s@.subrange(i as int, i + pat.len()) =~= pat@);
    true
}

/// `find_from`, computed.
pub fn find_from_exec(s: &Vec<char>, pat: &Vec<char>, from: usize) -> (r: Option<usize>)
    ensures
        opt_int(r) == find_from(s@, pat@, from as int),
{
    let mut i = from;
    loop
        invariant
            from <= i,
            find_from(s@, pat@, from as int) == find_from(s@, pat@, i as int),
        decreases s.len() + 1 - i,
    {
        if i > s.len() || pat.len() > s.len() - i {
            return None;
        }
        if match_at_exec(s, pat, i) {
            return Some(i);
        }
        i = i + 1;
    }
}

/// `find`, computed.
pub fn find_exec(s: &Vec<char>, pat: &Vec<char>) -> (r: Option<usize>)
    ensures
        opt_int(r) == find(s@, pat@),
{
    find_from_exec(s, pat, 0)
}

/// `find` of a string pattern, computed.
pub fn find_str(s: &Vec<char>, pat: &str) -> (r: Option<usize>)
    ensures
        opt_int(r) == find(s@, pat@),
{
    let p = to_chars(pat);
    find_from_exec(s, &p, 0)
}

/// `find_from` of a string pattern, computed.
pub fn find_str_from(s: &Vec<char>, pat: &str, from: usize) -> (r: Option<usize>)
    ensures
        opt_int(r) == find_from(s@, pat@, from as int),
{
    let p = to_chars(pat);
    find_from_exec(s, &p, from)
}

/// `contains` of a string pattern, computed.
pub fn contains_str(s: &Vec<char>, pat: &str) -> (b: bool)
    ensures
        b == contains(s@, pat@),
{
    find_str(s, pat).is_some()
}

/// `rfind`, computed.
pub fn rfind_str(s: &Vec<char>, pat: &str) -> (r: Option<usize>)
    ensures
        opt_int(r) == rfind(s@, pat@),
{
    let p = to_chars(pat);
    if match_at_exec(s, &p, s.len()) {
        return Some(s.len());
    }
    let mut i = s.len();
    assert(rfind(s@, p@) == rfind_before(s@, p@, i as int));
    loop
        invariant
            i <= s.len(),
            rfind(s@, p@) == rfind_before(s@, p@, i as int),
            p@ == pat@,
        decreases i,
    {
        if i == 0 {
            return None;
        }
        if match_at_exec(s, &p, i - 1) {
            return Some(i - 1);
        }
        i = i - 1;
    }
}

/// `starts_with` of a string pattern, computed.
pub fn starts_with_str(s: &Vec<char>, pat: &str) -> (b: bool)
    ensures
        b == starts_with(s@, pat@),
{
    let p = to_chars(pat);
    let b = match_at_exec(s, &p, 0);
    assert(b == starts_with(s@, p@)) by {
        if p@.len() <= s@.len() {
            assert(s@.take(p@.len() as int) =~= s@.subrange(0, p@.len() as int));
        }
    }
    b
}

/// `starts_with` at an offset: `pat` occurs in `s` at position `i`.
pub fn starts_with_at(s: &Vec<char>, i: usize, pat: &str) -> (b: bool)
    ensures
        b == match_at(s@, pat@, i as int),
{
    let p = to_chars(pat);
    match_at_exec(s, &p, i)
}

/// `ends_with` of a string pattern, computed.
pub fn ends_with_str(s: &Vec<char>, pat: &str) -> (b: bool)
    ensures
        b == ends_with(s@, pat@),
{
    let p = to_chars(pat);
    if p.len() > s.len() {
        return false;
    }
    let b = match_at_exec(s, &p, s.len() - p.len());
    assert(s@.skip(s@.len() - p@.len()) =~= s@.subrange(s@.len() - p@.len(), s@.len() as int));
    b
}


// ───────────────────────── whitespace ─────────────────────────

/// Unicode `White_Space` (what `char::is_whitespace` accepts).
pub open spec fn is_ws(c: char) -> bool {
    let u = c as u32;
    (9 <= u <= 13) || u == 32 || u == 0x85 || u == 0xA0 || u == 0x1680 || (0x2000 <= u <= 0x200A)
        || u == 0x2028 || u == 0x2029 || u == 0x202F || u == 0x205F || u == 0x3000
}

/// `char::is_whitespace`, computed.
pub fn is_ws_exec(c: char) -> (b: bool)
    ensures
        b == is_ws(c),
{
    let u = c as u32;
    (9 <= u && u <= 13) || u == 32 || u == 0x85 || u == 0xA0 || u == 0x1680 || (0x2000 <= u && u
        <= 0x200A) || u == 0x2028 || u == 0x2029 || u == 0x202F || u == 0x205F || u == 0x3000
}

/// Every character of `s` is whitespace (`s.trim().is_empty()`).
pub open spec fn is_blank(s: Seq<char>) -> bool {
    forall|i: int| 0 <= i < s.len() ==> is_ws(#[trigger] s[i])
}

/// The first position `>= i` that is not whitespace (or `s.len()`).
pub open spec fn skip_ws(s: Seq<char>, i: int) -> int
    decreases s.len() - i,
{
    if i < 0 || i >= s.len() {
        i
    } else if is_ws(s[i]) {
        skip_ws(s, i + 1)
    } else {
        i
    }
}

/// One past the last position `< j` that is not whitespace (or `lo` when none is at or above `lo`).
pub open spec fn skip_ws_back(s: Seq<char>, lo: int, j: int) -> int
    decreases j - lo,
{
    if j <= lo || j > s.len() {
        j
    } else if is_ws(s[j - 1]) {
        skip_ws_back(s, lo, j - 1)
    } else {
        j
    }
}

/// `str::trim_start`.
pub open spec fn trim_start(s: Seq<char>) -> Seq<char> {
    s.skip(skip_ws(s, 0))
}

/// `str::trim_end`.
pub open spec fn trim_end(s: Seq<char>) -> Seq<char> {
    s.take(skip_ws_back(s, 0, s.len() as int))
}

/// `str::trim`.
pub open spec fn trim(s: Seq<char>) -> Seq<char> {
    s.subrange(skip_ws(s, 0), skip_ws_back(s, skip_ws(s, 0), s.len() as int))
}

pub proof fn lemma_skip_ws(s: Seq<char>, i: int)
    requires
        0 <= i <= s.len(),
    ensures
        i <= skip_ws(s, i) <= s.len(),
        forall|k: int| i <= k < skip_ws(s, i) ==> is_ws(#[trigger] s[k]),
        skip_ws(s, i) < s.len() ==> !is_ws(s[skip_ws(s, i)]),
    decreases s.len() - i,
{
    if i < s.len() && is_ws(s[i]) {
        lemma_skip_ws(s, i + 1);
    }
}

pub proof fn lemma_skip_ws_back(s: Seq<char>, lo: int, j: int)
    requires
        0 <= lo <= j <= s.len(),
    ensures
        lo <= skip_ws_back(s, lo, j) <= j,
        forall|k: int| skip_ws_back(s, lo, j) <= k < j ==> is_ws(#[trigger] s[k]),
        skip_ws_back(s, lo, j) > lo ==> !is_ws(s[skip_ws_back(s, lo, j) - 1]),
    decreases j - lo,
{
    if j > lo && is_ws(s[j - 1]) {
        lemma_skip_ws_back(s, lo, j - 1);
    }
}

/// `skip_ws`, computed.
pub fn skip_ws_exec(s: &Vec<char>, i: usize) -> (r: usize)
    requires
        i <= s.len(),
    ensures
        r == skip_ws(s@, i as int),
{
    let mut k = i;
    while k < s.len() && is_ws_exec(s[k])
        invariant
            i <= k <= s.len(),
            skip_ws(s@, i as int) == skip_ws(s@, k as int),
        decreases s.len() - k,
    {
        k = k + 1;
    }
    k
}

/// `skip_ws_back`, computed.
pub fn skip_ws_back_exec(s: &Vec<char>, lo: usize, j: usize) -> (r: usize)
    requires
        lo <= j <= s.len(),
    ensures
        r == skip_ws_back(s@, lo as int, j as int),
{
    let mut k = j;
    while k > lo && is_ws_exec(s[k - 1])
        invariant
            lo <= k <= j <= s.len(),
            skip_ws_back(s@, lo as int, j as int) == skip_ws_back(s@, lo as int, k as int),
        decreases k - lo,
    {
        k = k - 1;
    }
    k
}

/// The bounds of `trim(s[from..to])` inside `s`.
pub fn trim_range(s: &Vec<char>, from: usize, to: usize) -> (r: (usize, usize))
    requires
        from <= to <= s.len(),
    ensures
        from <= r.0 <= r.1 <= to,
        s@.subrange(r.0 as int, r.1 as int) == trim(s@.subrange(from as int, to as int)),
{
    let ghost t = s@.subrange(from as int, to as int);
    let mut a = from;
    while a < to && is_ws_exec(s[a])
        invariant
            from <= a <= to <= s.len(),
            t == s@.subrange(from as int, to as int),
            skip_ws(t, 0) == skip_ws(t, a - from),
        decreases to - a,
    {
        assert(t[a - from] == s@[a as int]);
        a = a + 1;
    }
    proof {
        if a < to {
            assert(t[a - from] == s@[a as int]);
        }
    }
    let mut b = to;
    while b > a && is_ws_exec(s[b - 1])
        invariant
            from <= a <= b <= to <= s.len(),
            t == s@.subrange(from as int, to as int),
            skip_ws(t, 0) == a - from,
            skip_ws_back(t, a - from, t.len() as int) == skip_ws_back(t, a - from, b - from),
        decreases b - a,
    {
        assert(t[b - 1 - from] == s@[b - 1]);
        b = b - 1;
    }
    proof {
        if b > a {
            assert(t[b - 1 - from] == s@[b - 1]);
        }
        assert(s@.subrange(a as int, b as int) =~= t.subrange(a - from, b - from));
    }
    (a, b)
}

/// Decides whether `s[from..to]` is blank.
pub fn is_blank_range(s: &Vec<char>, from: usize, to: usize) -> (b: bool)
    requires
        from <= to <= s.len(),
    ensures
        b == is_blank(s@.subrange(from as int, to as int)),
{
    let mut k = from;
    while k < to
        invariant
            from <= k <= to <= s.len(),
            forall|m: int| from <= m < k ==> is_ws(#[trigger] s@[m]),
        decreases to - k,
    {
        if !is_ws_exec(s[k]) {
            assert(s@.subrange(from as int, to as int)[k - from] == s@[k as int]);
            return false;
        }
        k = k + 1;
    }
    assert forall|i: int| 0 <= i < to - from implies is_ws(
        #[trigger] s@.subrange(from as int, to as int)[i],
    ) by {
        assert(s@.subrange(from as int, to as int)[i] == s@[from + i]);
    }
    true
}

// ───────────────────────── lines ─────────────────────────

/// Where the line that starts at `p` ends: the position of the next `'\n'`, or `s.len()`.
pub open spec fn line_end(s: Seq<char>, p: int) -> int {
    match find_from(s, seq!['\n'], p) {
        Some(k) => k,
        None => s.len() as int,
    }
}

/// The line that starts at `p`, without its `"\n"` or `"\r\n"` ending (an item of `str::lines`).
pub open spec fn line_at(s: Seq<char>, p: int) -> Seq<char> {
    let e = line_end(s, p);
    if e < s.len() && e > p && s[e - 1] == '\r' {
        s.subrange(p, e - 1)
    } else {
        s.subrange(p, e)
    }
}

pub proof fn lemma_line_end(s: Seq<char>, p: int)
    requires
        0 <= p <= s.len(),
    ensures
        p <= line_end(s, p) <= s.len(),
        line_end(s, p) < s.len() ==> s[line_end(s, p)] == '\n',
        forall|k: int| p <= k < line_end(s, p) ==> #[trigger] s[k] != '\n',
{
    lemma_find_from(s, seq!['\n'], p);
    assert forall|k: int| p <= k < line_end(s, p) implies #[trigger] s[k] != '\n' by {
        if s[k] == '\n' {
            assert(match_at(s, seq!['\n'], k));
        }
    }
    if line_end(s, p) < s.len() {
        assert(s.subrange(line_end(s, p), line_end(s, p) + 1)[0] == s[line_end(s, p)]);
    }
}

/// The lines of `s` from position `p` on (`str::lines` on `s[p..]`).
pub open spec fn lines_from(s: Seq<char>, p: int) -> Seq<Seq<char>>
    decreases s.len() + 1 - p,
{
    if p < 0 || p >= s.len() {
        seq![]
    } else {
        proof {
            lemma_line_end(s, p);
        }
        seq![line_at(s, p)] + lines_from(s, line_end(s, p) + 1)
    }
}

/// `str::lines`.
pub open spec fn lines(s: Seq<char>) -> Seq<Seq<char>> {
    lines_from(s, 0)
}

/// `lines(..)` with the blank lines left out, from position `p` on.
pub open spec fn nonblank_lines_from(s: Seq<char>, p: int) -> Seq<Seq<char>>
    decreases s.len() + 1 - p,
{
    if p < 0 || p >= s.len() {
        seq![]
    } else {
        proof {
            lemma_line_end(s, p);
        }
        if is_blank(line_at(s, p)) {
            nonblank_lines_from(s, line_end(s, p) + 1)
        } else {
            seq![line_at(s, p)] + nonblank_lines_from(s, line_end(s, p) + 1)
        }
    }
}

/// `s.lines().filter(|l| !l.trim().is_empty())`.
pub open spec fn nonblank_lines(s: Seq<char>) -> Seq<Seq<char>> {
    nonblank_lines_from(s, 0)
}

/// `Vec::join` of a list of strings with separator `sep`.
pub open spec fn join(ls: Seq<Seq<char>>, sep: Seq<char>) -> Seq<char>
    decreases ls.len(),
{
    if ls.len() == 0 {
        seq![]
    } else if ls.len() == 1 {
        ls[0]
    } else {
        join(ls.drop_last(), sep) + sep + ls.last()
    }
}

/// `s.lines().filter(|l| !l.trim().is_empty()).collect::<Vec<_>>().join("\n")`:
/// `s` with its blank lines removed.
pub open spec fn drop_blank_lines(s: Seq<char>) -> Seq<char> {
    join(nonblank_lines(s), seq!['\n'])
}

/// The line starting at `p`: returns `(content_end, line_end)`.
pub fn next_line(s: &Vec<char>, p: usize) -> (r: (usize, usize))
    requires
        p < s.len(),
    ensures
        p <= r.0 <= r.1 <= s.len(),
        r.1 == line_end(s@, p as int),
        s@.subrange(p as int, r.0 as int) == line_at(s@, p as int),
{
    proof {
        lemma_line_end(s@, p as int);
    }
    let nl: Vec<char> = vec!['\n'];
    let e = match find_from_exec(s, &nl, p) {
        Some(k) => k,
        None => s.len(),
    };
    assert(nl@ =~= seq!['\n']);
    if e < s.len() && e > p && s[e - 1] == '\r' {
        (e - 1, e)
    } else {
        (e, e)
    }
}

pub proof fn lemma_join_push(ls: Seq<Seq<char>>, x: Seq<char>, sep: Seq<char>)
    ensures
        join(ls.push(x), sep) == if ls.len() == 0 {
            x
        } else {
            join(ls, sep) + sep + x
        },
{
    assert(ls.push(x).drop_last() =~= ls);
}

/// No two newlines in a row.
pub open spec fn no_blank_line(x: Seq<char>) -> bool {
    forall|i: int| 0 <= i && i + 1 < x.len() ==> !(#[trigger] x[i] == '\n' && x[i + 1] == '\n')
}

/// The non-blank lines are not empty and hold no newline.
proof fn lemma_nonblank_lines(s: Seq<char>, p: int)
    requires
        0 <= p,
    ensures
        forall|k: int| 0 <= k < nonblank_lines_from(s, p).len() ==> (#[trigger] nonblank_lines_from(s, p)[k]).len() > 0,
        forall|k: int, j: int|
            0 <= k < nonblank_lines_from(s, p).len() && 0 <= j < nonblank_lines_from(s, p)[k].len() ==> #[trigger] nonblank_lines_from(s, p)[k][j] != '\n',
    decreases s.len() + 1 - p,
{
    if p < s.len() {
        lemma_line_end(s, p);
        lemma_nonblank_lines(s, line_end(s, p) + 1);
        let l = line_at(s, p);
        let rest = nonblank_lines_from(s, line_end(s, p) + 1);
        if !is_blank(l) {
            let all = seq![l] + rest;
            assert(nonblank_lines_from(s, p) == all);
            assert forall|j: int| 0 <= j < l.len() implies #[trigger] l[j] != '\n' by {
                if line_end(s, p) < s.len() && line_end(s, p) > p && s[line_end(s, p) - 1] == '\r' {
                    assert(l[j] == s[p + j]);
                } else {
                    assert(l[j] == s[p + j]);
                }
            }
            assert forall|k: int| 0 <= k < all.len() implies (#[trigger] all[k]).len() > 0 by {
                if k == 0 {
                    if l.len() == 0 {
                        assert(is_blank(l));
                    }
                } else {
                    assert(all[k] == rest[k - 1]);
                }
            }
            assert forall|k: int, j: int| 0 <= k < all.len() && 0 <= j < all[k].len() implies #[trigger] all[k][j] != '\n' by {
                if k > 0 {
                    assert(all[k] == rest[k - 1]);
                }
            }
        }
    }
}

/// Joining non-empty lines without newlines by `"\n"` puts no two
/// newlines in a row, and no newline at either end.
proof fn lemma_join_lines(ls: Seq<Seq<char>>)
    requires
        forall|k: int| 0 <= k < ls.len() ==> (#[trigger] ls[k]).len() > 0,
        forall|k: int, j: int| 0 <= k < ls.len() && 0 <= j < ls[k].len() ==> #[trigger] ls[k][j] != '\n',
    ensures
        no_blank_line(join(ls, seq!['\n'])),
        join(ls, seq!['\n']).len() > 0 ==> join(ls, seq!['\n'])[0] != '\n' && join(ls, seq!['\n']).last() != '\n',
    decreases ls.len(),
{
    if ls.len() == 1 {
        assert(join(ls, seq!['\n']) == ls[0]);
        let x = ls[0];
        assert forall|i: int| 0 <= i && i + 1 < x.len() implies !(#[trigger] x[i] == '\n' && x[i + 1] == '\n') by {
            assert(ls[0][i] != '\n');
        }
        assert(x[0] != '\n');
        assert(x[x.len() - 1] != '\n');
    } else if ls.len() > 1 {
        let a = ls.drop_last();
        assert forall|k: int| 0 <= k < a.len() implies (#[trigger] a[k]).len() > 0 by {
            assert(a[k] == ls[k]);
        }
        assert forall|k: int, j: int| 0 <= k < a.len() && 0 <= j < a[k].len() implies #[trigger] a[k][j] != '\n' by {
            assert(a[k] == ls[k]);
        }
        lemma_join_lines(a);
        let ja = join(a, seq!['\n']);
        let l = ls.last();
        let x = join(ls, seq!['\n']);
        assert(x == ja + seq!['\n'] + l);
        assert(ja.len() > 0) by {
            assert(a.len() >= 1);
            if a.len() == 1 {
                assert(ja == a[0]);
            } else {
                assert(ja == join(a.drop_last(), seq!['\n']) + seq!['\n'] + a.last());
            }
        }
        assert(l.len() > 0 && l[0] != '\n' && l[l.len() - 1] != '\n') by {
            assert(ls[ls.len() - 1] == l);
        }
        assert forall|i: int| 0 <= i && i + 1 < x.len() implies !(#[trigger] x[i] == '\n' && x[i + 1] == '\n') by {
            if i + 1 < ja.len() {
                assert(x[i] == ja[i]);
                assert(x[i + 1] == ja[i + 1]);
            } else if i + 1 == ja.len() {
                assert(x[i] == ja[ja.len() - 1]);
            } else if i == ja.len() {
                assert(x[i + 1] == l[0]);
            } else {
                assert(x[i] == l[i - ja.len() - 1]);
                assert(x[i + 1] == l[i - ja.len()]);
                assert(ls[ls.len() - 1][i - ja.len()] != '\n');
            }
        }
        assert(x[0] == ja[0]);
        assert(x.last() == l[l.len() - 1]);
    }
}

/// Dropping the blank lines of any text leaves no blank line: never two
/// newlines in a row, and none at either end.
pub proof fn law_no_blank_line_left(s: Seq<char>)
    ensures
        no_blank_line(drop_blank_lines(s)),
        drop_blank_lines(s).len() > 0 ==> drop_blank_lines(s)[0] != '\n' && drop_blank_lines(s).last() != '\n',
{
    lemma_nonblank_lines(s, 0);
    lemma_join_lines(nonblank_lines(s));
}

/// `drop_blank_lines`, computed.
pub fn drop_blank_lines_exec(s: &Vec<char>) -> (r: Vec<char>)
    ensures
        r@ == drop_blank_lines(s@),
        r@.len() <= s@.len(),
{
    let mut out: Vec<char> = Vec::new();
    let mut p: usize = 0;
    let mut count: usize = 0;
    let ghost mut kept: Seq<Seq<char>> = seq![];
    while p < s.len()
        invariant
            nonblank_lines(s@) == kept + nonblank_lines_from(s@, p as int),
            out@ == join(kept, seq!['\n']),
            count == kept.len(),
            count <= p,
            p <= s.len(),
            out.len() <= p,
            count > 0 && p < s.len() ==> out.len() + 1 <= p,
        decreases s.len() - p,
    {
        let (e, le) = next_line(s, p);
        let next = if le < s.len() { le + 1 } else { s.len() };
        proof {
            lemma_line_end(s@, p as int);
            assert(nonblank_lines_from(s@, next as int) == nonblank_lines_from(s@, le + 1));
        }
        if !is_blank_range(s, p, e) {
            proof {
                lemma_join_push(kept, line_at(s@, p as int), seq!['\n']);
                assert(kept + nonblank_lines_from(s@, p as int) =~= kept.push(line_at(s@, p as int))
                    + nonblank_lines_from(s@, next as int));
                kept = kept.push(line_at(s@, p as int));
            }
            if count > 0 {
                out.push('\n');
            }
            extend_range(&mut out, s, p, e);
            assert(out@ =~= join(kept, seq!['\n']));
            count = count + 1;
        }
        p = next;
    }
    assert(kept + nonblank_lines_from(s@, p as int) =~= kept);
    out
}


/// `find_from` of a single character, computed.
pub fn find_char_from(s: &Vec<char>, c: char, from: usize) -> (r: Option<usize>)
    ensures
        opt_int(r) == find_from(s@, seq![c], from as int),
{
    let pat: Vec<char> = vec![c];
    assert(pat@ =~= seq![c]);
    find_from_exec(s, &pat, from)
}

/// The characters of `s` are all ASCII.
pub open spec fn is_ascii(s: Seq<char>) -> bool {
    forall|i: int| 0 <= i < s.len() ==> (#[trigger] s[i] as u32) < 128
}

/// ASCII whitespace (`u8::is_ascii_whitespace`: space, tab, LF, FF, CR).
pub open spec fn is_ascii_ws(c: char) -> bool {
    c == ' ' || c == '\t' || c == '\n' || c == '\x0C' || c == '\r'
}

/// `u8::is_ascii_whitespace` on a character, computed.
pub fn is_ascii_ws_exec(c: char) -> (b: bool)
    ensures
        b == is_ascii_ws(c),
{
    c == ' ' || c == '\t' || c == '\n' || c == '\x0C' || c == '\r'
}

/// `char::to_ascii_lowercase`.
pub open spec fn ascii_lower(c: char) -> char {
    if 'A' <= c <= 'Z' {
        ((c as u32) + 32) as char
    } else {
        c
    }
}

/// `str::to_ascii_lowercase`.
pub open spec fn ascii_lowercase(s: Seq<char>) -> Seq<char> {
    s.map_values(|c: char| ascii_lower(c))
}

/// `char::to_ascii_lowercase`, computed.
pub fn ascii_lower_exec(c: char) -> (r: char)
    ensures
        r == ascii_lower(c),
{
    if 'A' <= c && c <= 'Z' {
        let b = c as u8;
        assert(b as u32 == c as u32);
        ((b + 32) as char)
    } else {
        c
    }
}


// ───────────────────────── numbers ─────────────────────────

/// The decimal digit character of `d < 10`.
pub open spec fn digit_char(d: int) -> char {
    ((48 + d) as u8) as char
}

/// The decimal representation of `n` (`format!("{}", n)`).
pub open spec fn decimal(n: nat) -> Seq<char>
    decreases n,
{
    if n < 10 {
        seq![digit_char(n as int)]
    } else {
        decimal(n / 10).push(digit_char((n % 10) as int))
    }
}

/// Appends the decimal representation of `n`.
pub fn push_decimal(out: &mut String, n: u64)
    ensures
        final(out)@ == old(out)@ + decimal(n as nat),
    decreases n,
{
    if n >= 10 {
        push_decimal(out, n / 10);
    }
    let d = (n % 10) as u8;
    push_char(out, (48u8 + d) as char);
    proof {
        if n >= 10 {
            assert(old(out)@ + decimal((n / 10) as nat) + seq![digit_char((n % 10) as int)] =~= old(
                out,
            )@ + decimal(n as nat));
        } else {
            assert(old(out)@.push(digit_char(n as int)) =~= old(out)@ + decimal(n as nat));
        }
    }
}

/// Appends the decimal representation of `n` to a character vector.
pub fn extend_decimal(out: &mut Vec<char>, n: u64)
    ensures
        final(out)@ == old(out)@ + decimal(n as nat),
{
    let mut s = String::new();
    push_decimal(&mut s, n);
    let v = to_chars(s.as_str());
    extend_range(out, &v, 0, v.len());
    assert(v@.subrange(0, v@.len() as int) =~= v@);
    assert(s@ =~= decimal(n as nat));
}


// ───────────────────────── Unicode case ─────────────────────────

/// What `str::to_lowercase` returns for `s` (Unicode lower-case mapping,
/// including the context-dependent final sigma).
pub uninterp spec fn unicode_lowercase(s: Seq<char>) -> Seq<char>;

/// `str::to_lowercase`: the contract names its result and says no more.
#[verifier::external_body]
pub fn to_lowercase(s: &str) -> (r: String)
    ensures
        r@ == unicode_lowercase(s@),
{
    s.to_lowercase()
}


/// `==` on string slices.
pub fn str_eq(a: &str, b: &str) -> (r: bool)
    ensures
        r == (a@ == b@),
{
    let x = to_chars(a);
    let y = to_chars(b);
    if x.len() != y.len() {
        return false;
    }
    let mut i: usize = 0;
    while i < x.len()
        invariant
            x.len() == y.len(),
            x@ == a@,
            y@ == b@,
            i <= x.len(),
            forall|k: int| 0 <= k < i ==> x@[k] == y@[k],
        decreases x.len() - i,
    {
        if x[i] != y[i] {
            assert(x@[i as int] != y@[i as int]);
            return false;
        }
        i = i + 1;
    }
    assert(x@ =~= y@);
    true
}


/// What `char::is_alphanumeric` answers for `c` (Unicode `Alphabetic` or
/// `Numeric`).
pub uninterp spec fn unicode_alphanumeric(c: char) -> bool;

/// `char::is_alphanumeric`: the contract names its result.
#[verifier::external_body]
pub fn is_alphanumeric(c: char) -> (r: bool)
    ensures
        r == unicode_alphanumeric(c),
{
    c.is_alphanumeric()
}

/// What `char::to_uppercase` yields for `c` (one to three characters).
pub uninterp spec fn unicode_uppercase_char(c: char) -> Seq<char>;

/// `char::to_uppercase`, collected into a string.
#[verifier::external_body]
pub fn char_to_uppercase(c: char) -> (r: String)
    ensures
        r@ == unicode_uppercase_char(c),
{
    c.to_uppercase().to_string()
}


// ───────────────────────── words ─────────────────────────

/// The first position `>= i` that is whitespace (or `s.len()`).
pub open spec fn skip_nonws(s: Seq<char>, i: int) -> int
    decreases s.len() - i,
{
    if i < 0 || i >= s.len() {
        i
    } else if !is_ws(s[i]) {
        skip_nonws(s, i + 1)
    } else {
        i
    }
}

pub proof fn lemma_skip_nonws(s: Seq<char>, i: int)
    requires
        0 <= i <= s.len(),
    ensures
        i <= skip_nonws(s, i) <= s.len(),
        i < s.len() && !is_ws(s[i]) ==> skip_nonws(s, i) > i,
        forall|k: int| i <= k < skip_nonws(s, i) ==> !is_ws(#[trigger] s[k]),
        skip_nonws(s, i) < s.len() ==> is_ws(s[skip_nonws(s, i)]),
    decreases s.len() - i,
{
    if i < s.len() && !is_ws(s[i]) {
        lemma_skip_nonws(s, i + 1);
    }
}

/// The whitespace-separated words of `s` from position `p` on.
pub open spec fn words_from(s: Seq<char>, p: int) -> Seq<Seq<char>>
    decreases s.len() + 1 - p,
{
    if p < 0 || p > s.len() {
        seq![]
    } else {
        let a = skip_ws(s, p);
        proof {
            lemma_skip_ws(s, p);
            lemma_skip_nonws(s, a);
        }
        if a >= s.len() {
            seq![]
        } else {
            let b = skip_nonws(s, a);
            seq![s.subrange(a, b)] + words_from(s, b)
        }
    }
}

/// `str::split_whitespace`.
pub open spec fn words(s: Seq<char>) -> Seq<Seq<char>> {
    words_from(s, 0)
}

/// The words of `s` (`split_whitespace`), computed.
pub fn split_whitespace(s: &Vec<char>) -> (r: Vec<Vec<char>>)
    ensures
        r@.map_values(|w: Vec<char>| w@) == words(s@),
{
    let mut r: Vec<Vec<char>> = Vec::new();
    let mut p: usize = 0;
    loop
        invariant
            p <= s.len(),
            words(s@) == r@.map_values(|w: Vec<char>| w@) + words_from(s@, p as int),
        decreases s.len() - p,
    {
        let a = skip_ws_exec(s, p);
        proof {
            lemma_skip_ws(s@, p as int);
        }
        if a >= s.len() {
            assert(words_from(s@, p as int) =~= Seq::<Seq<char>>::empty());
            assert(r@.map_values(|w: Vec<char>| w@) + words_from(s@, p as int) =~= r@.map_values(
                |w: Vec<char>| w@,
            ));
            return r;
        }
        let mut b = a;
        while b < s.len() && !is_ws_exec(s[b])
            invariant
                a <= b <= s.len(),
                skip_nonws(s@, a as int) == skip_nonws(s@, b as int),
            decreases s.len() - b,
        {
            b = b + 1;
        }
        let mut w: Vec<char> = Vec::new();
        extend_range(&mut w, s, a, b);
        proof {
            let old_r = r@.map_values(|w: Vec<char>| w@);
            assert(r@.push(w).map_values(|w: Vec<char>| w@) =~= old_r.push(w@));
            assert(old_r + words_from(s@, p as int) =~= old_r.push(w@) + words_from(s@, b as int));
        }
        r.push(w);
        p = b;
    }
}

/// `s` with every leading copy of `pat` removed (`trim_start_matches`).
pub open spec fn strip_prefixes(s: Seq<char>, pat: Seq<char>) -> Seq<char>
    decreases s.len(),
{
    if pat.len() > 0 && starts_with(s, pat) {
        strip_prefixes(s.skip(pat.len() as int), pat)
    } else {
        s
    }
}

/// The views of a list of strings.
pub open spec fn sviews(v: Seq<String>) -> Seq<Seq<char>> {
    v.map_values(|x: String| x@)
}

/// The views of a list of character vectors.
pub open spec fn vviews(v: Seq<Vec<char>>) -> Seq<Seq<char>> {
    v.map_values(|x: Vec<char>| x@)
}

/// Whether two character vectors are equal.
pub fn chars_eq(a: &Vec<char>, b: &Vec<char>) -> (r: bool)
    ensures
        r == (a@ == b@),
{
    if a.len() != b.len() {
        return false;
    }
    let mut i: usize = 0;
    while i < a.len()
        invariant
            i <= a.len() == b.len(),
            forall|k: int| 0 <= k < i ==> a@[k] == b@[k],
        decreases a.len() - i,
    {
        if a[i] != b[i] {
            return false;
        }
        i = i + 1;
    }
    assert(a@ =~= b@);
    true
}

/// A copy of a character vector.
pub fn copy_chars(v: &Vec<char>) -> (r: Vec<char>)
    ensures
        r@ == v@,
{
    let mut r: Vec<char> = Vec::new();
    crate::text::extend_range(&mut r, v, 0, v.len());
    assert(v@.subrange(0, v@.len() as int) =~= v@);
    r
}

} // verus!
