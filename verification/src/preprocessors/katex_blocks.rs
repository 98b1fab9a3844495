//! What the KaTeX pass must not touch: fenced code blocks and `<script>` /
//! `<style>` elements. Before formulas are looked for, each such block is
//! cut out of the text and a placeholder put in its place; afterwards the
//! placeholders are replaced by the blocks again.
//!
//! A placeholder is `"\x01KPH_"`, 16 hexadecimal digits of a fresh UUID,
//! the 16 hexadecimal digits of the block's position, and `"\x01"`.
use vstd::prelude::*;
use crate::hashing::{hex_digit, hex_digit_exec};
use crate::ids::{fresh_uuid_hex, lower_hex_digit};
use crate::text::{
    ascii_lowercase, find_from, find_from_exec, lemma_find_from, line_end, match_at, push_char,
    push_range, to_chars,
};

verus! {

broadcast use vstd::string::group_string_axioms;

// ───────────────────────── placeholders ─────────────────────────

/// The text between the two `'\x01'` of a placeholder begins with this.
pub open spec fn kph() -> Seq<char> {
    seq!['K', 'P', 'H', '_']
}

/// A placeholder: `'\x01'`, `"KPH_"`, 32 lower-case hexadecimal digits, `'\x01'`.
pub open spec fn is_placeholder(k: Seq<char>) -> bool {
    &&& k.len() == 38
    &&& k[0] == '\x01'
    &&& k[37] == '\x01'
    &&& k.subrange(1, 5) == kph()
    &&& forall|i: int| 5 <= i < 37 ==> lower_hex_digit(#[trigger] k[i])
}

/// The `j`-th 4-bit digit of `n`, most significant first.
pub open spec fn nibble(n: u64, j: int) -> u64 {
    (n >> ((60 - 4 * j) as u64)) & 15u64
}

/// The 16 hexadecimal digits of `n`, most significant first.
pub open spec fn hex16(n: u64) -> Seq<char> {
    Seq::new(16, |j: int| hex_digit(nibble(n, j) as int))
}

proof fn lemma_nibble_digit(a: u64, b: u64, j: int)
    requires
        0 <= j < 16,
        hex16(a) == hex16(b),
    ensures
        nibble(a, j) == nibble(b, j),
{
    let x = a >> ((60 - 4 * j) as u64);
    let y = b >> ((60 - 4 * j) as u64);
    assert(x & 15u64 < 16) by (bit_vector);
    assert(y & 15u64 < 16) by (bit_vector);
    assert(hex16(a)[j] == hex16(b)[j]);
    let da = nibble(a, j) as int;
    let db = nibble(b, j) as int;
    assert(hex_digit(da) as u32 == if da < 10 { 48 + da } else { 87 + da });
    assert(hex_digit(db) as u32 == if db < 10 { 48 + db } else { 87 + db });
    assert(0 <= da < 16 && 0 <= db < 16);
    assert(hex16(a)[j] == hex_digit(da));
    assert(hex16(b)[j] == hex_digit(db));
    assert(hex_digit(da) as u32 == hex_digit(db) as u32);
    assert(da == db);
}

/// Different numbers have different digits.
pub proof fn lemma_hex16_injective(a: u64, b: u64)
    requires
        hex16(a) == hex16(b),
    ensures
        a == b,
{
    lemma_nibble_digit(a, b, 0);
    lemma_nibble_digit(a, b, 1);
    lemma_nibble_digit(a, b, 2);
    lemma_nibble_digit(a, b, 3);
    lemma_nibble_digit(a, b, 4);
    lemma_nibble_digit(a, b, 5);
    lemma_nibble_digit(a, b, 6);
    lemma_nibble_digit(a, b, 7);
    lemma_nibble_digit(a, b, 8);
    lemma_nibble_digit(a, b, 9);
    lemma_nibble_digit(a, b, 10);
    lemma_nibble_digit(a, b, 11);
    lemma_nibble_digit(a, b, 12);
    lemma_nibble_digit(a, b, 13);
    lemma_nibble_digit(a, b, 14);
    lemma_nibble_digit(a, b, 15);
    assert(a == b) by (bit_vector)
        requires
            (a >> 60u64) & 15u64 == (b >> 60u64) & 15u64,
            (a >> 56u64) & 15u64 == (b >> 56u64) & 15u64,
            (a >> 52u64) & 15u64 == (b >> 52u64) & 15u64,
            (a >> 48u64) & 15u64 == (b >> 48u64) & 15u64,
            (a >> 44u64) & 15u64 == (b >> 44u64) & 15u64,
            (a >> 40u64) & 15u64 == (b >> 40u64) & 15u64,
            (a >> 36u64) & 15u64 == (b >> 36u64) & 15u64,
            (a >> 32u64) & 15u64 == (b >> 32u64) & 15u64,
            (a >> 28u64) & 15u64 == (b >> 28u64) & 15u64,
            (a >> 24u64) & 15u64 == (b >> 24u64) & 15u64,
            (a >> 20u64) & 15u64 == (b >> 20u64) & 15u64,
            (a >> 16u64) & 15u64 == (b >> 16u64) & 15u64,
            (a >> 12u64) & 15u64 == (b >> 12u64) & 15u64,
            (a >> 8u64) & 15u64 == (b >> 8u64) & 15u64,
            (a >> 4u64) & 15u64 == (b >> 4u64) & 15u64,
            (a >> 0u64) & 15u64 == (b >> 0u64) & 15u64,
    ;
}

/// A fresh placeholder for the block starting at `pos`: 16 random
/// hexadecimal digits, then the 16 digits of `pos`, so that blocks at
/// different places never share one.
fn new_placeholder(pos: usize) -> (r: String)
    ensures
        is_placeholder(r@),
        r@.subrange(21, 37) == hex16(pos as u64),
{
    let hex = to_chars(fresh_uuid_hex().as_str());
    let n = pos as u64;
    let mut k = String::new();
    push_char(&mut k, '\x01');
    k.append("KPH_");
    push_range(&mut k, &hex, 0, 16);
    let ghost head = k@;
    let mut j: u64 = 0;
    while j < 16
        invariant
            j <= 16,
            n == pos as u64,
            k@ == head + hex16(n).take(j as int),
        decreases 16 - j,
    {
        let sh: u64 = 60 - 4 * j;
        let d = (n >> sh) & 15u64;
        assert(d < 16) by (bit_vector)
            requires
                d == (n >> sh) & 15u64,
        ;
        let c = hex_digit_exec(d as u8);
        push_char(&mut k, c);
        proof {
            assert(hex16(n)[j as int] == hex_digit(d as int));
            assert(hex16(n).take(j + 1) =~= hex16(n).take(j as int).push(hex16(n)[j as int]));
        }
        j = j + 1;
    }
    push_char(&mut k, '\x01');
    proof {
        reveal_strlit("KPH_");
        assert(head =~= seq!['\x01'] + "KPH_"@ + hex@.subrange(0, 16));
        assert(k@ =~= seq!['\x01'] + "KPH_"@ + hex@.subrange(0, 16) + hex16(n) + seq!['\x01']);
        assert(k@.subrange(1, 5) =~= kph());
        assert(k@.subrange(21, 37) =~= hex16(n));
        assert forall|i: int| 5 <= i < 37 implies lower_hex_digit(#[trigger] k@[i]) by {
            if i < 21 {
                assert(k@[i] == hex@[i - 5]);
            } else {
                let jj = i - 21;
                let x = n >> ((60 - 4 * jj) as u64);
                assert(x & 15u64 < 16) by (bit_vector);
                assert(k@[i] == hex16(n)[jj]);
            }
        }
    }
    k
}

// ───────────────────────── code blocks ─────────────────────────

/// A code fence: three backticks.
pub open spec fn fence() -> Seq<char> {
    seq!['`', '`', '`']
}

/// The closing fence of a code block whose body starts at `j`: the first
/// fence at or after `j` that begins a line.
pub open spec fn closing_fence_from(s: Seq<char>, j: int) -> Option<int>
    decreases s.len() - j,
{
    if j < 0 || j + 3 > s.len() {
        None
    } else if (j == 0 || s[j - 1] == '\n') && match_at(s, fence(), j) {
        Some(j)
    } else {
        closing_fence_from(s, j + 1)
    }
}

/// From `p` on, past every `'\n'` and `'\r'`.
pub open spec fn skip_newlines(s: Seq<char>, p: int) -> int
    decreases s.len() - p,
{
    if 0 <= p < s.len() && (s[p] == '\n' || s[p] == '\r') {
        skip_newlines(s, p + 1)
    } else {
        p
    }
}

/// Where the code block opened by the fence at `i` ends: past its closing
/// fence and the line breaks after it, or at the end of the text when it is
/// never closed. Its body starts on the line after the fence's info string.
pub open spec fn code_block_end(s: Seq<char>, i: int) -> int {
    let le = line_end(s, i + 3);
    let body = if le < s.len() {
        le + 1
    } else {
        le
    };
    match closing_fence_from(s, body) {
        Some(c) => skip_newlines(s, c + 3),
        None => s.len() as int,
    }
}

pub proof fn lemma_closing_fence_from(s: Seq<char>, j: int)
    requires
        0 <= j,
    ensures
        match closing_fence_from(s, j) {
            Some(c) => j <= c && c + 3 <= s.len() && match_at(s, fence(), c),
            None => true,
        },
    decreases s.len() - j,
{
    if j < 0 || j + 3 > s.len() {
    } else if (j == 0 || s[j - 1] == '\n') && match_at(s, fence(), j) {
    } else {
        lemma_closing_fence_from(s, j + 1);
    }
}

pub proof fn lemma_skip_newlines(s: Seq<char>, p: int)
    requires
        0 <= p <= s.len(),
    ensures
        p <= skip_newlines(s, p) <= s.len(),
    decreases s.len() - p,
{
    if 0 <= p < s.len() && (s[p] == '\n' || s[p] == '\r') {
        lemma_skip_newlines(s, p + 1);
    }
}

pub proof fn lemma_code_block_end(s: Seq<char>, i: int)
    requires
        match_at(s, fence(), i),
    ensures
        i + 3 <= code_block_end(s, i) <= s.len(),
{
    crate::text::lemma_line_end(s, i + 3);
    let le = line_end(s, i + 3);
    let body = if le < s.len() {
        le + 1
    } else {
        le
    };
    lemma_closing_fence_from(s, body);
    match closing_fence_from(s, body) {
        Some(c) => lemma_skip_newlines(s, c + 3),
        None => {},
    }
}

/// The code blocks from `p` on, as `(start, end)` positions, in order: each
/// opens at the first fence after the previous one ends.
pub open spec fn code_blocks_from(s: Seq<char>, p: int) -> Seq<(int, int)>
    decreases s.len() - p,
{
    if p < 0 || p > s.len() {
        seq![]
    } else {
        match find_from(s, fence(), p) {
            Some(i) => {
                proof {
                    lemma_find_from(s, fence(), p);
                    lemma_code_block_end(s, i);
                }
                seq![(i, code_block_end(s, i))] + code_blocks_from(s, code_block_end(s, i))
            },
            None => seq![],
        }
    }
}

// ───────────────────────── blocks and their placeholders ─────────────────────────

/// `bs` are stretches of a text of length `n`, in order, none overlapping,
/// all at or after `p`.
pub open spec fn ordered_blocks(bs: Seq<(int, int)>, p: int, n: int) -> bool
    decreases bs.len(),
{
    if bs.len() == 0 {
        0 <= p <= n
    } else {
        0 <= p <= bs[0].0 < bs[0].1 && ordered_blocks(bs.drop_first(), bs[0].1, n)
    }
}

pub proof fn lemma_ordered_bound(bs: Seq<(int, int)>, p: int, n: int)
    requires
        ordered_blocks(bs, p, n),
    ensures
        0 <= p <= n,
        bs.len() > 0 ==> bs[0].1 <= n,
    decreases bs.len(),
{
    if bs.len() > 0 {
        lemma_ordered_bound(bs.drop_first(), bs[0].1, n);
    }
}

/// The text from `p` on with the stretches `bs` replaced, in order, by the
/// placeholders `ks`.
pub open spec fn with_placeholders(s: Seq<char>, bs: Seq<(int, int)>, ks: Seq<Seq<char>>, p: int) -> Seq<
    char,
>
    decreases bs.len(),
{
    if bs.len() == 0 {
        s.subrange(p, s.len() as int)
    } else {
        s.subrange(p, bs[0].0) + ks[0] + with_placeholders(s, bs.drop_first(), ks.drop_first(), bs[0].1)
    }
}

/// The placeholders of a list of (placeholder, block) pairs.
pub open spec fn keys_of(m: Seq<(Seq<char>, Seq<char>)>) -> Seq<Seq<char>> {
    m.map_values(|e: (Seq<char>, Seq<char>)| e.0)
}

/// The view of a list of (placeholder, block) pairs.
pub open spec fn pairs_view(m: Seq<(String, String)>) -> Seq<(Seq<char>, Seq<char>)> {
    m.map_values(|e: (String, String)| (e.0@, e.1@))
}

/// `m` holds the stretches `bs` of `s`, each behind its own placeholder.
pub open spec fn protects(s: Seq<char>, bs: Seq<(int, int)>, m: Seq<(Seq<char>, Seq<char>)>) -> bool {
    &&& m.len() == bs.len()
    &&& forall|k: int|
        0 <= k < m.len() ==> is_placeholder(#[trigger] m[k].0) && m[k].1 == s.subrange(
            bs[k].0,
            bs[k].1,
        ) && m[k].0.subrange(21, 37) == hex16(bs[k].0 as u64)
}


// ───────────────────────── scanning, computed ─────────────────────────

fn closing_fence_exec(s: &Vec<char>, j: usize) -> (r: Option<usize>)
    ensures
        crate::text::opt_int(r) == closing_fence_from(s@, j as int),
{
    let f: Vec<char> = vec!['`', '`', '`'];
    assert(f@ =~= fence());
    let mut k = j;
    loop
        invariant
            j <= k,
            f@ == fence(),
            closing_fence_from(s@, j as int) == closing_fence_from(s@, k as int),
        decreases s.len() + 1 - k,
    {
        if k > s.len() || s.len() - k < 3 {
            return None;
        }
        if (k == 0 || s[k - 1] == '\n') && crate::text::match_at_exec(s, &f, k) {
            return Some(k);
        }
        k = k + 1;
    }
}

fn skip_newlines_exec(s: &Vec<char>, p: usize) -> (r: usize)
    requires
        p <= s.len(),
    ensures
        r == skip_newlines(s@, p as int),
{
    let mut k = p;
    while k < s.len() && (s[k] == '\n' || s[k] == '\r')
        invariant
            p <= k <= s.len(),
            skip_newlines(s@, p as int) == skip_newlines(s@, k as int),
        decreases s.len() - k,
    {
        k = k + 1;
    }
    k
}

fn code_block_end_exec(s: &Vec<char>, i: usize) -> (r: usize)
    requires
        match_at(s@, fence(), i as int),
    ensures
        r == code_block_end(s@, i as int),
{
    assert(fence().len() == 3);
    assert(i + 3 <= s.len());
    proof {
        crate::text::lemma_line_end(s@, i + 3);
        lemma_find_from(s@, seq!['\n'], i + 3);
    }
    let le = match crate::text::find_char_from(s, '\n', i + 3) {
        Some(k) => k,
        None => s.len(),
    };
    let body = if le < s.len() {
        le + 1
    } else {
        le
    };
    proof {
        lemma_closing_fence_from(s@, body as int);
    }
    match closing_fence_exec(s, body) {
        Some(c) => skip_newlines_exec(s, c + 3),
        None => s.len(),
    }
}

/// From `p` on: the text with its code blocks behind placeholders, and the
/// placeholders with their blocks, in order.
fn protect_code_from(s: &Vec<char>, p: usize) -> (r: (String, Vec<(String, String)>))
    requires
        p <= s.len(),
    ensures
        protects(s@, code_blocks_from(s@, p as int), pairs_view(r.1@)),
        r.0@ == with_placeholders(s@, code_blocks_from(s@, p as int), keys_of(pairs_view(r.1@)), p as int),
    decreases s.len() - p,
{
    let f: Vec<char> = vec!['`', '`', '`'];
    assert(f@ =~= fence());
    proof {
        lemma_find_from(s@, fence(), p as int);
    }
    match find_from_exec(s, &f, p) {
        None => {
            let mut out = String::new();
            push_range(&mut out, s, p, s.len());
            let m: Vec<(String, String)> = Vec::new();
            assert(pairs_view(m@) =~= seq![]);
            (out, m)
        },
        Some(i) => {
            proof {
                lemma_code_block_end(s@, i as int);
            }
            let e = code_block_end_exec(s, i);
            let key = new_placeholder(i);
            let mut block = String::new();
            push_range(&mut block, s, i, e);
            let (rest, m) = protect_code_from(s, e);
            let mut out = String::new();
            push_range(&mut out, s, p, i);
            out.append(key.as_str());
            out.append(rest.as_str());
            let m = prepend_pair(m, key, block, s, i, e, Ghost(code_blocks_from(s@, e as int)));
            assert(code_blocks_from(s@, p as int) == seq![(i as int, e as int)] + code_blocks_from(s@, e as int));
            assert(code_blocks_from(s@, p as int).drop_first() =~= code_blocks_from(s@, e as int));
            (out, m)
        },
    }
}

/// The text with each fenced code block (from its opening fence through
/// its closing fence and the line breaks after it; to the end of the text
/// when it is never closed) behind a fresh placeholder, and the
/// placeholders with their blocks, in order.
pub fn protect_code_blocks(content: &str) -> (r: (String, Vec<(String, String)>))
    ensures
        protects(content@, code_blocks_from(content@, 0), pairs_view(r.1@)),
        r.0@ == with_placeholders(content@, code_blocks_from(content@, 0), keys_of(pairs_view(r.1@)), 0),
{
    let s = to_chars(content);
    protect_code_from(&s, 0)
}

// ───────────────────────── script and style elements ─────────────────────────

pub open spec fn script_open() -> Seq<char> {
    seq!['<', 's', 'c', 'r', 'i', 'p', 't']
}

pub open spec fn style_open() -> Seq<char> {
    seq!['<', 's', 't', 'y', 'l', 'e']
}

pub open spec fn script_close() -> Seq<char> {
    seq!['/', 's', 'c', 'r', 'i', 'p', 't', '>']
}

pub open spec fn style_close() -> Seq<char> {
    seq!['/', 's', 't', 'y', 'l', 'e', '>']
}

/// In the lower-cased text `l`, the `<script` or `<style` that comes first
/// at or after `p`, with the end tag it is closed by.
pub open spec fn first_element_open(l: Seq<char>, p: int) -> Option<(int, Seq<char>)> {
    match (find_from(l, script_open(), p), find_from(l, style_open(), p)) {
        (Some(a), Some(b)) => if b < a {
            Some((b, style_close()))
        } else {
            Some((a, script_close()))
        },
        (Some(a), None) => Some((a, script_close())),
        (None, Some(b)) => Some((b, style_close())),
        (None, None) => None,
    }
}

pub proof fn lemma_first_element_open(l: Seq<char>, p: int)
    requires
        0 <= p,
    ensures
        match first_element_open(l, p) {
            Some((st, close)) => p <= st <= l.len() && close.len() >= 7,
            None => true,
        },
{
    lemma_find_from(l, script_open(), p);
    lemma_find_from(l, style_open(), p);
}

/// The `<script>` and `<style>` elements from `p` on, as `(start, end)`
/// positions, tag names matched in any ASCII case: the element that opens
/// first, through the first matching end tag after it; the search stops at
/// an element that is never closed.
pub open spec fn element_blocks_from(s: Seq<char>, p: int) -> Seq<(int, int)>
    decreases s.len() - p,
{
    let l = ascii_lowercase(s);
    if p < 0 || p > s.len() {
        seq![]
    } else {
        match first_element_open(l, p) {
            Some((st, close)) => {
                proof {
                    lemma_first_element_open(l, p);
                    lemma_find_from(l, close, st);
                }
                match find_from(l, close, st) {
                    Some(e) => seq![(st, e + close.len())] + element_blocks_from(s, e + close.len()),
                    None => seq![],
                }
            },
            None => seq![],
        }
    }
}

pub proof fn lemma_element_blocks_ordered(s: Seq<char>, p: int)
    requires
        0 <= p <= s.len(),
    ensures
        ordered_blocks(element_blocks_from(s, p), p, s.len() as int),
    decreases s.len() - p,
{
    let l = ascii_lowercase(s);
    lemma_first_element_open(l, p);
    match first_element_open(l, p) {
        Some((st, close)) => {
            lemma_find_from(l, close, st);
            match find_from(l, close, st) {
                Some(e) => {
                    lemma_element_blocks_ordered(s, e + close.len());
                    assert(element_blocks_from(s, p).drop_first() =~= element_blocks_from(
                        s,
                        e + close.len(),
                    ));
                },
                None => {},
            }
        },
        None => {},
    }
}

proof fn lemma_element_step(s: Seq<char>, p: int, st: int, close: Seq<char>, e: int)
    requires
        0 <= p <= s.len(),
        first_element_open(ascii_lowercase(s), p) == Some((st, close)),
        find_from(ascii_lowercase(s), close, st) == Some(e),
    ensures
        element_blocks_from(s, p) == seq![(st, e + close.len())] + element_blocks_from(s, e + close.len()),
{
}

proof fn lemma_element_stop(s: Seq<char>, p: int)
    requires
        0 <= p <= s.len(),
        match first_element_open(ascii_lowercase(s), p) {
            Some((st, close)) => find_from(ascii_lowercase(s), close, st) is None,
            None => true,
        },
    ensures
        element_blocks_from(s, p) == Seq::<(int, int)>::empty(),
{
}

fn ascii_lowercase_exec(s: &Vec<char>) -> (r: Vec<char>)
    ensures
        r@ == ascii_lowercase(s@),
{
    let mut r: Vec<char> = Vec::new();
    let mut i: usize = 0;
    while i < s.len()
        invariant
            i <= s.len(),
            r@ =~= ascii_lowercase(s@).take(i as int),
        decreases s.len() - i,
    {
        r.push(crate::text::ascii_lower_exec(s[i]));
        i = i + 1;
    }
    r
}

fn protect_elements_from(s: &Vec<char>, l: &Vec<char>, p: usize) -> (r: (String, Vec<(String, String)>))
    requires
        p <= s.len(),
        l@ == ascii_lowercase(s@),
    ensures
        protects(s@, element_blocks_from(s@, p as int), pairs_view(r.1@)),
        r.0@ == with_placeholders(s@, element_blocks_from(s@, p as int), keys_of(pairs_view(r.1@)), p as int),
    decreases s.len() - p,
{
    let so: Vec<char> = vec!['<', 's', 'c', 'r', 'i', 'p', 't'];
    let sto: Vec<char> = vec!['<', 's', 't', 'y', 'l', 'e'];
    let sc: Vec<char> = vec!['/', 's', 'c', 'r', 'i', 'p', 't', '>'];
    let stc: Vec<char> = vec!['/', 's', 't', 'y', 'l', 'e', '>'];
    assert(so@ =~= script_open() && sto@ =~= style_open());
    assert(sc@ =~= script_close() && stc@ =~= style_close());
    proof {
        lemma_first_element_open(l@, p as int);
    }
    let a = find_from_exec(l, &so, p);
    let b = find_from_exec(l, &sto, p);
    let opened: Option<(usize, bool)> = match (a, b) {
        (Some(x), Some(y)) => if y < x {
            Some((y, false))
        } else {
            Some((x, true))
        },
        (Some(x), None) => Some((x, true)),
        (None, Some(y)) => Some((y, false)),
        (None, None) => None,
    };
    let ghost opened_spec = first_element_open(l@, p as int);
    match opened {
        None => {
            assert(opened_spec is None);
            proof {
                lemma_element_stop(s@, p as int);
            }
            let mut out = String::new();
            push_range(&mut out, s, p, s.len());
            let m: Vec<(String, String)> = Vec::new();
            assert(pairs_view(m@) =~= seq![]);
            assert(with_placeholders(s@, element_blocks_from(s@, p as int), keys_of(pairs_view(m@)), p as int)
                == s@.subrange(p as int, s@.len() as int));
            assert(out@ == s@.subrange(p as int, s@.len() as int));
            (out, m)
        },
        Some((st, is_script)) => {
            let close = if is_script {
                sc
            } else {
                stc
            };
            assert(opened_spec == Some((st as int, close@)));
            proof {
                lemma_find_from(l@, close@, st as int);
            }
            match find_from_exec(l, &close, st) {
                None => {
                    proof {
                        lemma_element_stop(s@, p as int);
                    }
                    let mut out = String::new();
                    push_range(&mut out, s, p, s.len());
                    let m: Vec<(String, String)> = Vec::new();
                    assert(pairs_view(m@) =~= seq![]);
                    assert(with_placeholders(s@, element_blocks_from(s@, p as int), keys_of(pairs_view(m@)), p as int)
                        == s@.subrange(p as int, s@.len() as int));
                    (out, m)
                },
                Some(e) => {
                    let end = e + close.len();
                    proof {
                        lemma_element_step(s@, p as int, st as int, close@, e as int);
                    }
                    let key = new_placeholder(st);
                    let mut block = String::new();
                    push_range(&mut block, s, st, end);
                    let (rest, m) = protect_elements_from(s, l, end);
                    let mut out = String::new();
                    push_range(&mut out, s, p, st);
                    out.append(key.as_str());
                    out.append(rest.as_str());
                    let m = prepend_pair(m, key, block, s, st, end, Ghost(element_blocks_from(s@, end as int)));
                    assert(element_blocks_from(s@, p as int).drop_first() =~= element_blocks_from(s@, end as int));
                    (out, m)
                },
            }
        },
    }
}

/// Puts a placeholder and its block in front of the pairs for the blocks after it.
fn prepend_pair(
    m: Vec<(String, String)>,
    key: String,
    block: String,
    s: &Vec<char>,
    st: usize,
    end: usize,
    Ghost(rest_bs): Ghost<Seq<(int, int)>>,
) -> (r: Vec<(String, String)>)
    requires
        st <= end <= s.len(),
        is_placeholder(key@),
        key@.subrange(21, 37) == hex16(st as u64),
        block@ == s@.subrange(st as int, end as int),
        protects(s@, rest_bs, pairs_view(m@)),
    ensures
        protects(s@, seq![(st as int, end as int)] + rest_bs, pairs_view(r@)),
        pairs_view(r@)[0] == (key@, block@),
        keys_of(pairs_view(r@)).drop_first() == keys_of(pairs_view(m@)),
        keys_of(pairs_view(r@))[0] == key@,
{
    let mut r = m;
    let ghost old_m = r@;
    r.insert(0, (key, block));
    proof {
        let bs = seq![(st as int, end as int)] + rest_bs;
        assert(pairs_view(r@).drop_first() =~= pairs_view(old_m));
        assert(keys_of(pairs_view(r@)).drop_first() =~= keys_of(pairs_view(old_m)));
        assert forall|k: int| 0 <= k < pairs_view(r@).len() implies is_placeholder(
            #[trigger] pairs_view(r@)[k].0,
        ) && pairs_view(r@)[k].1 == s@.subrange(bs[k].0, bs[k].1) && pairs_view(r@)[k].0.subrange(21, 37)
            == hex16(bs[k].0 as u64) by {
            if k > 0 {
                assert(pairs_view(r@)[k] == pairs_view(old_m)[k - 1]);
                assert(bs[k] == rest_bs[k - 1]);
            }
        }
    }
    r
}

/// The text with each `<script>` and `<style>` element behind a fresh
/// placeholder, and the placeholders with their elements, in order. Tag
/// names are matched in any ASCII case; the search stops at the first
/// element that is never closed.
pub fn protect_html_blocks(content: &str) -> (r: (String, Vec<(String, String)>))
    ensures
        protects(content@, element_blocks_from(content@, 0), pairs_view(r.1@)),
        r.0@ == with_placeholders(content@, element_blocks_from(content@, 0), keys_of(pairs_view(r.1@)), 0),
{
    let s = to_chars(content);
    let l = ascii_lowercase_exec(&s);
    protect_elements_from(&s, &l, 0)
}

// ───────────────────────── restoring ─────────────────────────

/// Each placeholder replaced by its block, in the order given
/// (`str::replace` for each in turn).
pub open spec fn restored(t: Seq<char>, m: Seq<(Seq<char>, Seq<char>)>) -> Seq<char>
    decreases m.len(),
{
    if m.len() == 0 {
        t
    } else {
        restored(crate::text::replaced(t, m[0].0, m[0].1), m.drop_first())
    }
}

/// Puts the blocks back: every occurrence of each placeholder, in turn,
/// replaced by its block; the list of placeholders is used up (left empty).
pub fn restore_blocks(content: &str, placeholders: &mut Vec<(String, String)>) -> (r: String)
    requires
        forall|k: int| 0 <= k < old(placeholders)@.len() ==> (#[trigger] old(placeholders)@[k]).0@.len() > 0,
    ensures
        r@ == restored(content@, pairs_view(old(placeholders)@)),
        final(placeholders)@.len() == 0,
{
    let r = restore_from_list(content, placeholders);
    placeholders.clear();
    r
}

fn restore_from_list(content: &str, placeholders: &Vec<(String, String)>) -> (r: String)
    requires
        forall|k: int| 0 <= k < placeholders@.len() ==> (#[trigger] placeholders@[k]).0@.len() > 0,
    ensures
        r@ == restored(content@, pairs_view(placeholders@)),
{
    let mut cur = to_chars(content);
    let mut i: usize = 0;
    assert(pairs_view(placeholders@).skip(0) =~= pairs_view(placeholders@));
    while i < placeholders.len()
        invariant
            i <= placeholders.len(),
            forall|k: int| 0 <= k < placeholders@.len() ==> (#[trigger] placeholders@[k]).0@.len() > 0,
            restored(content@, pairs_view(placeholders@)) == restored(cur@, pairs_view(placeholders@).skip(i as int)),
        decreases placeholders.len() - i,
    {
        let ghost rest = pairs_view(placeholders@).skip(i as int);
        assert(rest[0] == (placeholders@[i as int].0@, placeholders@[i as int].1@));
        assert(rest.drop_first() =~= pairs_view(placeholders@).skip(i + 1));
        cur = crate::text::replace_str(&cur, placeholders[i].0.as_str(), placeholders[i].1.as_str());
        i = i + 1;
    }
    assert(pairs_view(placeholders@).skip(i as int).len() == 0);
    crate::text::from_chars(&cur)
}


// ───────────────────────── restoring undoes protecting ─────────────────────────

/// No `'\x01'` in `s` (placeholders are delimited by it), and none of the
/// placeholders' identifiers (`KPH_` and the 32 digits) written in it.
pub open spec fn placeholder_free(s: Seq<char>, m: Seq<(Seq<char>, Seq<char>)>) -> bool {
    &&& forall|i: int| 0 <= i < s.len() ==> #[trigger] s[i] != '\x01'
    &&& forall|k: int| 0 <= k < m.len() ==> !crate::text::contains(s, #[trigger] m[k].0.subrange(1, 37))
}

/// No two pairs share a placeholder.
pub open spec fn distinct_keys(m: Seq<(Seq<char>, Seq<char>)>) -> bool {
    forall|a: int, b: int| 0 <= a < b < m.len() ==> #[trigger] m[a].0 != #[trigger] m[b].0
}

proof fn lemma_no_id_at(s: Seq<char>, k: Seq<char>, q: int)
    requires
        !crate::text::contains(s, k.subrange(1, 37)),
    ensures
        !match_at(s, k.subrange(1, 37), q),
{
    lemma_find_from(s, k.subrange(1, 37), 0);
}

proof fn lemma_placeholder_inside(k: Seq<char>, i: int)
    requires
        is_placeholder(k),
        0 < i < 37,
    ensures
        k[i] != '\x01',
{
    if i < 5 {
        assert(k[i] == k.subrange(1, 5)[i - 1]);
    } else {
        assert(lower_hex_digit(k[i]));
    }
}

/// A text with placeholders in it does not begin with the identifier of
/// the placeholder `k` when the text around the placeholders does not hold it.
proof fn lemma_wp_head(s: Seq<char>, bs: Seq<(int, int)>, ks: Seq<Seq<char>>, p: int, k: Seq<char>)
    requires
        forall|i: int| 0 <= i < s.len() ==> #[trigger] s[i] != '\x01',
        !crate::text::contains(s, k.subrange(1, 37)),
        is_placeholder(k),
        ordered_blocks(bs, p, s.len() as int),
        bs.len() <= ks.len(),
        forall|j: int| 0 <= j < ks.len() ==> is_placeholder(#[trigger] ks[j]),
    ensures
        ({
            let w = with_placeholders(s, bs, ks, p);
            !(w.len() >= 36 && w.subrange(0, 36) == k.subrange(1, 37))
        }),
{
    let w = with_placeholders(s, bs, ks, p);
    let id = k.subrange(1, 37);
    lemma_ordered_bound(bs, p, s.len() as int);
    lemma_no_id_at(s, k, p);
    if bs.len() == 0 {
        if s.len() - p >= 36 {
            assert(w.subrange(0, 36) =~= s.subrange(p, p + 36));
        }
    } else {
        let a = bs[0].0 - p;
        let w1 = with_placeholders(s, bs.drop_first(), ks.drop_first(), bs[0].1);
        assert(w == s.subrange(p, bs[0].0) + ks[0] + w1);
        assert(is_placeholder(ks[0]));
        if a >= 36 {
            assert forall|i: int| 0 <= i < 36 implies w.subrange(0, 36)[i] == s.subrange(p, p + 36)[i] by {
                assert(w[i] == s.subrange(p, bs[0].0)[i]);
            }
            assert(w.subrange(0, 36) =~= s.subrange(p, p + 36));
        } else if w.len() >= 36 {
            assert(w[a] == (s.subrange(p, bs[0].0) + ks[0])[a]);
            assert(w[a] == ks[0][0]);
            assert(w.subrange(0, 36)[a] == w[a]);
            lemma_placeholder_inside(k, a + 1);
            assert(id[a] == k[a + 1]);
        }
    }
}

/// A placeholder that is none of `ks` occurs nowhere in a text whose
/// placeholders are `ks`.
proof fn lemma_wp_no_match(s: Seq<char>, bs: Seq<(int, int)>, ks: Seq<Seq<char>>, p: int, k: Seq<char>)
    requires
        forall|i: int| 0 <= i < s.len() ==> #[trigger] s[i] != '\x01',
        ordered_blocks(bs, p, s.len() as int),
        bs.len() <= ks.len(),
        forall|j: int| 0 <= j < ks.len() ==> is_placeholder(#[trigger] ks[j]) && ks[j] != k,
        is_placeholder(k),
        !crate::text::contains(s, k.subrange(1, 37)),
    ensures
        forall|q: int| !match_at(with_placeholders(s, bs, ks, p), k, q),
    decreases bs.len(),
{
    let w = with_placeholders(s, bs, ks, p);
    lemma_ordered_bound(bs, p, s.len() as int);
    if bs.len() == 0 {
        assert forall|q: int| !match_at(w, k, q) by {
            if match_at(w, k, q) {
                assert(w.subrange(q, q + 38)[0] == w[q]);
                assert(w[q] == s[p + q]);
            }
        }
    } else {
        let a = bs[0].0 - p;
        let k0 = ks[0];
        let w1 = with_placeholders(s, bs.drop_first(), ks.drop_first(), bs[0].1);
        lemma_wp_no_match(s, bs.drop_first(), ks.drop_first(), bs[0].1, k);
        lemma_wp_head(s, bs.drop_first(), ks.drop_first(), bs[0].1, k);
        lemma_ordered_bound(bs.drop_first(), bs[0].1, s.len() as int);
        let pre = s.subrange(p, bs[0].0);
        assert(w == pre + k0 + w1);
        assert(is_placeholder(k0) && k0 != k);
        assert(w.len() == a + 38 + w1.len());
        assert forall|q: int| !match_at(w, k, q) by {
            if match_at(w, k, q) {
                let sub = w.subrange(q, q + 38);
                assert(sub =~= k);
                if q < a {
                    assert(sub[0] == w[q]);
                    assert(w[q] == (pre + k0)[q]);
                    assert(w[q] == pre[q]);
                    assert(pre[q] == s[p + q]);
                } else if q == a {
                    assert forall|i: int| 0 <= i < 38 implies sub[i] == k0[i] by {
                        assert(sub[i] == w[a + i]);
                        assert(w[a + i] == (pre + k0)[a + i]);
                    }
                    assert(sub =~= k0);
                } else if q < a + 37 {
                    assert(sub[0] == w[q]);
                    assert(w[q] == (pre + k0)[q]);
                    assert(w[q] == k0[q - a]);
                    lemma_placeholder_inside(k0, q - a);
                } else if q == a + 37 {
                    assert forall|i: int| 0 <= i < 36 implies w1.subrange(0, 36)[i] == sub.subrange(1, 37)[i] by {
                        assert(sub[i + 1] == w[q + 1 + i]);
                        assert(w[q + 1 + i] == w1[i]);
                    }
                    assert(w1.subrange(0, 36) =~= sub.subrange(1, 37));
                    assert(sub.subrange(1, 37) =~= k.subrange(1, 37));
                } else {
                    assert(w1.subrange(q - a - 38, q - a) =~= sub);
                    assert(match_at(w1, k, q - a - 38));
                }
            }
        }
    }
}

/// `str::replace` on a text where the pattern occurs only at `n`.
proof fn lemma_replace_single(t: Seq<char>, k: Seq<char>, b: Seq<char>, n: int)
    requires
        k.len() > 0,
        match_at(t, k, n),
        forall|q: int| q != n ==> !#[trigger] match_at(t, k, q),
    ensures
        crate::text::replaced(t, k, b) == t.subrange(0, n) + b + t.subrange(n + k.len(), t.len() as int),
{
    lemma_find_from(t, k, 0);
    lemma_find_from(t, k, n + k.len());
    assert(find_from(t, k, 0) == Some(n));
    assert(find_from(t, k, n + k.len()) is None);
    assert(crate::text::replaced_from(t, k, b, n + k.len()) == t.subrange(n + k.len(), t.len() as int));
}

/// Replacing a placeholder that occurs once, after a text without
/// `'\x01'`, puts the block in its place.
proof fn lemma_replace_once(x: Seq<char>, k: Seq<char>, w: Seq<char>, b: Seq<char>)
    requires
        forall|i: int| 0 <= i < x.len() ==> #[trigger] x[i] != '\x01',
        is_placeholder(k),
        forall|q: int| !match_at(w, k, q),
        !(w.len() >= 36 && w.subrange(0, 36) == k.subrange(1, 37)),
    ensures
        crate::text::replaced(x + k + w, k, b) == x + b + w,
{
    let t = x + k + w;
    let n = x.len() as int;
    assert(match_at(t, k, n)) by {
        assert(t.subrange(n, n + 38) =~= k);
    }
    assert forall|q: int| q != n implies !#[trigger] match_at(t, k, q) by {
        if match_at(t, k, q) {
            if q < n {
                assert(t.subrange(q, q + 38)[0] == t[q]);
                assert(t[q] == x[q]);
            } else if q < n + 37 {
                lemma_overlap(t, k, n, q);
            } else if q == n + 37 {
                assert forall|i: int| 0 <= i < 36 implies w.subrange(0, 36)[i] == k.subrange(1, 37)[i] by {
                    assert(t.subrange(q, q + 38)[i + 1] == k[i + 1]);
                    assert(k[i + 1] == k.subrange(1, 37)[i]);
                    assert(t[q + 1 + i] == w[i]);
                }
                assert(w.subrange(0, 36) =~= k.subrange(1, 37));
            } else {
                assert(w.subrange(q - n - 38, q - n) =~= t.subrange(q, q + 38));
                assert(match_at(w, k, q - n - 38));
            }
        }
    }
    lemma_replace_single(t, k, b, n);
    assert(t.subrange(0, n) =~= x);
    assert(t.subrange(n + 38, t.len() as int) =~= w);
}

/// Where a placeholder occurs, it does not occur again starting inside it
/// before its last character: only its first and last characters are `'\x01'`.
proof fn lemma_overlap(t: Seq<char>, k: Seq<char>, n: int, q: int)
    requires
        is_placeholder(k),
        match_at(t, k, n),
        n < q < n + 37,
    ensures
        !match_at(t, k, q),
{
    if !match_at(t, k, q) {
        return;
    }
    assert(t[q] == t.subrange(q, q + 38)[0]);
    assert(t[q] == t.subrange(n, n + 38)[q - n]);
    lemma_placeholder_inside(k, q - n);
}

proof fn lemma_restore_from(s: Seq<char>, bs: Seq<(int, int)>, m: Seq<(Seq<char>, Seq<char>)>, p: int)
    requires
        placeholder_free(s, m),
        ordered_blocks(bs, p, s.len() as int),
        protects(s, bs, m),
        distinct_keys(m),
    ensures
        restored(s.subrange(0, p) + with_placeholders(s, bs, keys_of(m), p), m) == s,
    decreases bs.len(),
{
    let ks = keys_of(m);
    if bs.len() == 0 {
        assert(s.subrange(0, p) + s.subrange(p, s.len() as int) =~= s);
    } else {
        let (i0, e0) = bs[0];
        lemma_ordered_bound(bs, p, s.len() as int);
        let m1 = m.drop_first();
        let bs1 = bs.drop_first();
        assert(ks.drop_first() =~= keys_of(m1));
        let w1 = with_placeholders(s, bs1, keys_of(m1), e0);
        assert(is_placeholder(m[0].0));
        assert forall|j: int| 0 <= j < keys_of(m1).len() implies is_placeholder(#[trigger] keys_of(m1)[j])
            && keys_of(m1)[j] != m[0].0 by {
            assert(keys_of(m1)[j] == m[j + 1].0);
            assert(is_placeholder(m[j + 1].0));
            assert(m[0].0 != m[j + 1].0);
        }
        lemma_wp_no_match(s, bs1, keys_of(m1), e0, m[0].0);
        lemma_wp_head(s, bs1, keys_of(m1), e0, m[0].0);
        let x = s.subrange(0, i0);
        assert forall|i: int| 0 <= i < x.len() implies #[trigger] x[i] != '\x01' by {
            assert(x[i] == s[i]);
        }
        assert(with_placeholders(s, bs, ks, p) == s.subrange(p, i0) + ks[0] + w1);
        assert(ks[0] == m[0].0);
        assert(s.subrange(0, p) + s.subrange(p, i0) =~= x);
        assert(s.subrange(0, p) + with_placeholders(s, bs, ks, p) =~= x + m[0].0 + w1);
        lemma_replace_once(x, m[0].0, w1, m[0].1);
        assert(x + m[0].1 + w1 =~= s.subrange(0, e0) + w1);
        assert(protects(s, bs1, m1)) by {
            assert forall|k: int| 0 <= k < m1.len() implies is_placeholder(#[trigger] m1[k].0) && m1[k].1
                == s.subrange(bs1[k].0, bs1[k].1) by {
                assert(m1[k] == m[k + 1]);
                assert(is_placeholder(m[k + 1].0));
            }
        }
        assert(placeholder_free(s, m1)) by {
            assert forall|k: int| 0 <= k < m1.len() implies !crate::text::contains(s, #[trigger] m1[k].0.subrange(1, 37)) by {
                assert(m1[k] == m[k + 1]);
            }
        }
        assert(distinct_keys(m1)) by {
            assert forall|a: int, b: int| 0 <= a < b < m1.len() implies #[trigger] m1[a].0 != #[trigger] m1[b].0 by {
                assert(m[a + 1].0 != m[b + 1].0);
            }
        }
        lemma_restore_from(s, bs1, m1, e0);
    }
}

pub proof fn lemma_code_blocks_ordered(s: Seq<char>, p: int)
    requires
        0 <= p <= s.len(),
    ensures
        ordered_blocks(code_blocks_from(s, p), p, s.len() as int),
    decreases s.len() - p,
{
    lemma_find_from(s, fence(), p);
    match find_from(s, fence(), p) {
        Some(i) => {
            lemma_code_block_end(s, i);
            lemma_code_blocks_ordered(s, code_block_end(s, i));
            assert(code_blocks_from(s, p).drop_first() =~= code_blocks_from(s, code_block_end(s, i)));
        },
        None => {},
    }
}

/// The blocks of an ordered list start at strictly increasing positions,
/// all at `p` or after and before `n`.
proof fn lemma_ordered_starts(bs: Seq<(int, int)>, p: int, n: int)
    requires
        ordered_blocks(bs, p, n),
    ensures
        forall|k: int| 0 <= k < bs.len() ==> p <= #[trigger] bs[k].0 < n,
        forall|a: int, b: int| 0 <= a < b < bs.len() ==> #[trigger] bs[a].0 < #[trigger] bs[b].0,
    decreases bs.len(),
{
    if bs.len() > 0 {
        let rest = bs.drop_first();
        lemma_ordered_starts(rest, bs[0].1, n);
        lemma_ordered_bound(bs, p, n);
        assert forall|k: int| 0 <= k < bs.len() implies p <= #[trigger] bs[k].0 < n by {
            if k > 0 {
                assert(bs[k] == rest[k - 1]);
            }
        }
        assert forall|a: int, b: int| 0 <= a < b < bs.len() implies #[trigger] bs[a].0 < #[trigger] bs[b].0 by {
            assert(bs[b] == rest[b - 1]);
            if a > 0 {
                assert(bs[a] == rest[a - 1]);
            }
        }
    }
}

/// Placeholders carry the positions of their blocks, so no two are the same.
proof fn lemma_keys_distinct(s: Seq<char>, bs: Seq<(int, int)>, m: Seq<(Seq<char>, Seq<char>)>)
    requires
        s.len() <= u64::MAX,
        ordered_blocks(bs, 0, s.len() as int),
        protects(s, bs, m),
    ensures
        distinct_keys(m),
{
    lemma_ordered_starts(bs, 0, s.len() as int);
    assert forall|a: int, b: int| 0 <= a < b < m.len() implies #[trigger] m[a].0 != #[trigger] m[b].0 by {
        assert(bs[a].0 < bs[b].0);
        if m[a].0 == m[b].0 {
            assert(hex16(bs[a].0 as u64) == hex16(bs[b].0 as u64));
            lemma_hex16_injective(bs[a].0 as u64, bs[b].0 as u64);
        }
    }
}

/// Putting the code blocks back gives the text that was protected, as long
/// as the text holds no `'\x01'` and none of the placeholders' identifiers;
/// the placeholders are all different.
pub proof fn law_code_blocks_restored(s: Seq<char>, m: Seq<(Seq<char>, Seq<char>)>)
    requires
        s.len() <= u64::MAX,
        placeholder_free(s, m),
        protects(s, code_blocks_from(s, 0), m),
    ensures
        distinct_keys(m),
        restored(with_placeholders(s, code_blocks_from(s, 0), keys_of(m), 0), m) == s,
{
    lemma_code_blocks_ordered(s, 0);
    lemma_keys_distinct(s, code_blocks_from(s, 0), m);
    lemma_restore_from(s, code_blocks_from(s, 0), m, 0);
    assert(s.subrange(0, 0) + with_placeholders(s, code_blocks_from(s, 0), keys_of(m), 0)
        =~= with_placeholders(s, code_blocks_from(s, 0), keys_of(m), 0));
}

/// Putting the `<script>` and `<style>` elements back gives the text that
/// was protected, as long as the text holds no `'\x01'` and none of the
/// placeholders' identifiers; the placeholders are all different.
pub proof fn law_html_blocks_restored(s: Seq<char>, m: Seq<(Seq<char>, Seq<char>)>)
    requires
        s.len() <= u64::MAX,
        placeholder_free(s, m),
        protects(s, element_blocks_from(s, 0), m),
    ensures
        distinct_keys(m),
        restored(with_placeholders(s, element_blocks_from(s, 0), keys_of(m), 0), m) == s,
{
    lemma_element_blocks_ordered(s, 0);
    lemma_keys_distinct(s, element_blocks_from(s, 0), m);
    lemma_restore_from(s, element_blocks_from(s, 0), m, 0);
    assert(s.subrange(0, 0) + with_placeholders(s, element_blocks_from(s, 0), keys_of(m), 0)
        =~= with_placeholders(s, element_blocks_from(s, 0), keys_of(m), 0));
}

} // verus!
