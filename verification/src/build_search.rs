//! The search index for Chinese text: the pages' text is split into CJK
//! unigrams and bigrams and Latin words, and each token is mapped to the
//! pages it occurs in.
use vstd::prelude::*;
use crate::pattern::{capture_view, regex_capture, regex_first_group, regex_replace_all, regex_replaced_all};
use crate::text::{
    chars_eq, push_range, replace_str, replaced, sviews, to_chars, to_lowercase, trim, trim_range,
    unicode_lowercase, vviews,
};

verus! {

broadcast use vstd::string::group_string_axioms;

// ───────────────────────── tokens ─────────────────────────

/// A CJK ideograph (the unified ideographs, extension A and the
/// compatibility ideographs).
pub open spec fn cjk(c: char) -> bool {
    let u = c as u32;
    (0x4E00 <= u <= 0x9FFF) || (0x3400 <= u <= 0x4DBF) || (0xF900 <= u <= 0xFAFF)
}

/// Whether `c` is a CJK ideograph.
pub fn is_cjk(c: char) -> (r: bool)
    ensures
        r == cjk(c),
{
    let code = c as u32;
    (code >= 0x4E00 && code <= 0x9FFF) || (code >= 0x3400 && code <= 0x4DBF) || (code >= 0xF900
        && code <= 0xFAFF)
}

/// An ASCII letter or digit.
pub open spec fn ascii_alnum(c: char) -> bool {
    ('0' <= c <= '9') || ('a' <= c <= 'z') || ('A' <= c <= 'Z')
}

/// The unigrams of a run of ideographs, then its bigrams (each pair of
/// neighbours).
pub open spec fn cjk_grams(buf: Seq<char>) -> Seq<Seq<char>> {
    Seq::new(buf.len(), |i: int| seq![buf[i]]) + Seq::new(
        if buf.len() > 0 {
            (buf.len() - 1) as nat
        } else {
            0
        },
        |i: int| seq![buf[i], buf[i + 1]],
    )
}

/// The unigrams and bigrams of a run of ideographs (see `cjk_grams`).
pub fn cjk_bigram_from_buf(buf: &[char]) -> (r: Vec<String>)
    ensures
        r@.map_values(|s: String| s@) == cjk_grams(buf@),
{
    let mut result: Vec<String> = Vec::new();
    let mut i: usize = 0;
    while i < buf.len()
        invariant
            i <= buf.len(),
            result@.map_values(|s: String| s@) == Seq::new(i as nat, |k: int| seq![buf@[k]]),
        decreases buf.len() - i,
    {
        let mut s = String::new();
        crate::text::push_char(&mut s, buf[i]);
        assert(s@ =~= seq![buf@[i as int]]);
        let ghost before = result@.map_values(|s: String| s@);
        result.push(s);
        assert(result@.map_values(|s: String| s@) =~= before.push(seq![buf@[i as int]]));
        assert(result@.map_values(|s: String| s@) =~= Seq::new((i + 1) as nat, |k: int| seq![buf@[k]]));
        i = i + 1;
    }
    let n = if buf.len() > 0 {
        buf.len() - 1
    } else {
        0
    };
    let ghost uni = result@.map_values(|s: String| s@);
    let mut j: usize = 0;
    while j < n
        invariant
            j <= n,
            n == (if buf.len() > 0 {
                buf.len() - 1
            } else {
                0
            }),
            uni == Seq::new(buf.len() as nat, |k: int| seq![buf@[k]]),
            result@.map_values(|s: String| s@) == uni + Seq::new(j as nat, |k: int| seq![buf@[k], buf@[k + 1]]),
        decreases n - j,
    {
        let mut s = String::new();
        crate::text::push_char(&mut s, buf[j]);
        crate::text::push_char(&mut s, buf[j + 1]);
        assert(s@ =~= seq![buf@[j as int], buf@[j + 1]]);
        let ghost before = result@.map_values(|s: String| s@);
        result.push(s);
        assert(result@.map_values(|s: String| s@) =~= before.push(seq![buf@[j as int], buf@[j + 1]]));
        assert(result@.map_values(|s: String| s@) =~= uni + Seq::new((j + 1) as nat, |k: int| seq![buf@[k], buf@[k + 1]]));
        j = j + 1;
    }
    result
}

/// The state of the tokenizer: the tokens so far and the open runs of
/// ideographs and of ASCII letters and digits.
pub struct TokState {
    pub tokens: Seq<Seq<char>>,
    pub cjk: Seq<char>,
    pub latin: Seq<char>,
}

/// The open ideograph run, emitted.
pub open spec fn flush_cjk(st: TokState) -> TokState {
    if st.cjk.len() > 0 {
        TokState { tokens: st.tokens + cjk_grams(st.cjk), cjk: seq![], ..st }
    } else {
        st
    }
}

/// The open Latin run, emitted.
pub open spec fn flush_latin(st: TokState) -> TokState {
    if st.latin.len() > 0 {
        TokState { tokens: st.tokens.push(st.latin), latin: seq![], ..st }
    } else {
        st
    }
}

/// One character of the tokenizer: an ideograph ends a Latin run, a
/// letter or digit ends an ideograph run, anything else ends both.
pub open spec fn tok_step(st: TokState, c: char) -> TokState {
    if cjk(c) {
        let s = flush_latin(st);
        TokState { cjk: s.cjk.push(c), ..s }
    } else if ascii_alnum(c) {
        let s = flush_cjk(st);
        TokState { latin: s.latin.push(c), ..s }
    } else {
        flush_latin(flush_cjk(st))
    }
}

/// The tokenizer over the first `n` characters of `s`.
pub open spec fn tok_prefix(s: Seq<char>, n: int) -> TokState
    decreases n,
{
    if n <= 0 {
        TokState { tokens: seq![], cjk: seq![], latin: seq![] }
    } else {
        tok_step(tok_prefix(s, n - 1), s[n - 1])
    }
}

/// Every token of a text, in order and with repeats.
pub open spec fn raw_tokens(s: Seq<char>) -> Seq<Seq<char>> {
    flush_latin(flush_cjk(tok_prefix(s, s.len() as int))).tokens
}

// ───────────────────────── what the tokens are ─────────────────────────

/// `s[i..j]` is a whole run of ASCII letters and digits.
pub open spec fn latin_run(s: Seq<char>, i: int, j: int) -> bool {
    &&& 0 <= i < j <= s.len()
    &&& forall|k: int| i <= k < j ==> ascii_alnum(#[trigger] s[k])
    &&& (i == 0 || !ascii_alnum(s[i - 1]))
    &&& (j == s.len() || !ascii_alnum(s[j]))
}

/// `x` is a token of `s`: a whole run of ASCII letters and digits, an
/// ideograph, or two neighbouring ideographs.
pub open spec fn is_token(s: Seq<char>, x: Seq<char>) -> bool {
    ||| exists|i: int, j: int| #[trigger] latin_run(s, i, j) && x == s.subrange(i, j)
    ||| exists|i: int| 0 <= i < s.len() && cjk(#[trigger] s[i]) && x == seq![s[i]]
    ||| exists|i: int| 0 <= i && i + 1 < s.len() && cjk(#[trigger] s[i]) && cjk(s[i + 1]) && x == seq![s[i], s[i + 1]]
}

/// Where the run of ASCII letters and digits ending at `n` starts.
pub open spec fn latin_start(s: Seq<char>, n: int) -> int
    decreases n,
{
    if n <= 0 || n > s.len() || !ascii_alnum(s[n - 1]) {
        n
    } else {
        latin_start(s, n - 1)
    }
}

/// Where the run of ideographs ending at `n` starts.
pub open spec fn cjk_start(s: Seq<char>, n: int) -> int
    decreases n,
{
    if n <= 0 || n > s.len() || !cjk(s[n - 1]) {
        n
    } else {
        cjk_start(s, n - 1)
    }
}

proof fn lemma_latin_start(s: Seq<char>, n: int)
    requires
        0 <= n <= s.len(),
    ensures
        0 <= latin_start(s, n) <= n,
        forall|k: int| latin_start(s, n) <= k < n ==> ascii_alnum(#[trigger] s[k]),
        latin_start(s, n) == 0 || !ascii_alnum(s[latin_start(s, n) - 1]),
    decreases n,
{
    if n > 0 && ascii_alnum(s[n - 1]) {
        lemma_latin_start(s, n - 1);
    }
}

proof fn lemma_cjk_start(s: Seq<char>, n: int)
    requires
        0 <= n <= s.len(),
    ensures
        0 <= cjk_start(s, n) <= n,
        forall|k: int| cjk_start(s, n) <= k < n ==> cjk(#[trigger] s[k]),
        cjk_start(s, n) == 0 || !cjk(s[cjk_start(s, n) - 1]),
    decreases n,
{
    if n > 0 && cjk(s[n - 1]) {
        lemma_cjk_start(s, n - 1);
    }
}

/// The tokens of the runs closed before `n` (the ideograph runs before `c`).
pub open spec fn closed_token(s: Seq<char>, n: int, c: int, x: Seq<char>) -> bool {
    ||| exists|i: int, j: int| #[trigger] latin_run(s, i, j) && j < n && x == s.subrange(i, j)
    ||| exists|i: int| 0 <= i < c && cjk(#[trigger] s[i]) && x == seq![s[i]]
    ||| exists|i: int| 0 <= i && i + 1 < c && cjk(#[trigger] s[i]) && cjk(s[i + 1]) && x == seq![s[i], s[i + 1]]
}

/// The tokenizer after `n` characters holds the open runs, and the tokens
/// of the closed ones.
pub open spec fn tok_inv(s: Seq<char>, n: int) -> bool {
    let st = tok_prefix(s, n);
    &&& st.latin == s.subrange(latin_start(s, n), n)
    &&& st.cjk == s.subrange(cjk_start(s, n), n)
    &&& forall|x: Seq<char>| #[trigger] st.tokens.contains(x) <==> closed_token(s, n, cjk_start(s, n), x)
}

proof fn lemma_contains_push(a: Seq<Seq<char>>, y: Seq<char>, x: Seq<char>)
    ensures
        a.push(y).contains(x) <==> (a.contains(x) || x == y),
{
    if a.contains(x) {
        let k = choose|k: int| 0 <= k < a.len() && a[k] == x;
        assert(a.push(y)[k] == x);
    }
    if x == y {
        assert(a.push(y)[a.len() as int] == x);
    }
    if a.push(y).contains(x) {
        let k = choose|k: int| 0 <= k < a.push(y).len() && a.push(y)[k] == x;
        if k < a.len() {
            assert(a[k] == x);
        }
    }
}

proof fn lemma_contains_concat(a: Seq<Seq<char>>, b: Seq<Seq<char>>, x: Seq<char>)
    ensures
        (a + b).contains(x) <==> (a.contains(x) || b.contains(x)),
{
    if a.contains(x) {
        let k = choose|k: int| 0 <= k < a.len() && a[k] == x;
        assert((a + b)[k] == x);
    }
    if b.contains(x) {
        let k = choose|k: int| 0 <= k < b.len() && b[k] == x;
        assert((a + b)[a.len() + k] == x);
    }
    if (a + b).contains(x) {
        let k = choose|k: int| 0 <= k < (a + b).len() && (a + b)[k] == x;
        if k < a.len() {
            assert(a[k] == x);
        } else {
            assert(b[k - a.len()] == x);
        }
    }
}

/// The grams of the ideograph run `s[c..n]` are its ideographs and its
/// pairs of neighbours.
proof fn lemma_grams_contains(s: Seq<char>, c: int, n: int, x: Seq<char>)
    requires
        0 <= c <= n <= s.len(),
    ensures
        cjk_grams(s.subrange(c, n)).contains(x) <==> ((exists|i: int| c <= i < n && x == seq![#[trigger] s[i]])
            || (exists|i: int| c <= i && i + 1 < n && x == seq![#[trigger] s[i], s[i + 1]])),
{
    let buf = s.subrange(c, n);
    let u = Seq::new(buf.len(), |i: int| seq![buf[i]]);
    let b = Seq::new(if buf.len() > 0 { (buf.len() - 1) as nat } else { 0 }, |i: int| seq![buf[i], buf[i + 1]]);
    assert(cjk_grams(buf) == u + b);
    lemma_contains_concat(u, b, x);
    if u.contains(x) {
        let k = choose|k: int| 0 <= k < u.len() && u[k] == x;
        assert(x == seq![s[c + k]]);
    }
    if b.contains(x) {
        let k = choose|k: int| 0 <= k < b.len() && b[k] == x;
        assert(x == seq![s[c + k], s[c + k + 1]]);
    }
    if exists|i: int| c <= i < n && x == seq![#[trigger] s[i]] {
        let i = choose|i: int| c <= i < n && x == seq![#[trigger] s[i]];
        assert(u[i - c] == x);
    }
    if exists|i: int| c <= i && i + 1 < n && x == seq![#[trigger] s[i], s[i + 1]] {
        let i = choose|i: int| c <= i && i + 1 < n && x == seq![#[trigger] s[i], s[i + 1]];
        assert(b[i - c] == x);
    }
}

/// A whole ASCII run ending at `n` starts where the run ending at `n` does.
proof fn lemma_latin_run_at(s: Seq<char>, i: int, n: int)
    requires
        0 <= n <= s.len(),
        latin_run(s, i, n),
    ensures
        i == latin_start(s, n),
{
    lemma_latin_start(s, n);
    let l = latin_start(s, n);
    if i < l {
        assert(ascii_alnum(s[l - 1]));
    } else if i > l {
        assert(ascii_alnum(s[i - 1]));
    }
}

/// Each character keeps the tokenizer's invariant.
proof fn lemma_tok_step(s: Seq<char>, n: int)
    requires
        0 <= n < s.len(),
        tok_inv(s, n),
    ensures
        tok_inv(s, n + 1),
{
    let st = tok_prefix(s, n);
    let c = s[n];
    let l = latin_start(s, n);
    let cs = cjk_start(s, n);
    lemma_latin_start(s, n);
    lemma_cjk_start(s, n);
    lemma_latin_start(s, n + 1);
    lemma_cjk_start(s, n + 1);
    assert(tok_prefix(s, n + 1) == tok_step(st, c));
    let st2 = tok_prefix(s, n + 1);
    let l2 = latin_start(s, n + 1);
    let cs2 = cjk_start(s, n + 1);
    let fl = flush_latin(st);
    let fc = flush_cjk(st);
    // The ASCII run closed at `n`, if `c` ends one.
    assert forall|x: Seq<char>| fl.tokens.contains(x) <==> (st.tokens.contains(x) || (l < n && x == s.subrange(l, n))) by {
        if st.latin.len() > 0 {
            lemma_contains_push(st.tokens, st.latin, x);
        }
    }
    // The ideograph run closed at `n`, if `c` ends one.
    assert forall|x: Seq<char>| fc.tokens.contains(x) <==> (st.tokens.contains(x) || cjk_grams(s.subrange(cs, n)).contains(x)) by {
        if st.cjk.len() > 0 {
            lemma_contains_concat(st.tokens, cjk_grams(st.cjk), x);
        } else {
            assert(s.subrange(cs, n).len() == 0);
            assert(cjk_grams(s.subrange(cs, n)) =~= Seq::<Seq<char>>::empty());
        }
    }
    if cjk(c) {
        assert(!ascii_alnum(c));
        assert(l2 == n + 1);
        assert(cs2 == cs);
        assert(st2.latin =~= s.subrange(l2, n + 1));
        assert(st2.cjk =~= s.subrange(cs2, n + 1));
        assert(st2.tokens == fl.tokens);
        assert forall|x: Seq<char>| #[trigger] st2.tokens.contains(x) <==> closed_token(s, n + 1, cs2, x) by {
            if exists|i: int, j: int| #[trigger] latin_run(s, i, j) && j < n + 1 && x == s.subrange(i, j) {
                let (i, j) = choose|i: int, j: int| #[trigger] latin_run(s, i, j) && j < n + 1 && x == s.subrange(i, j);
                if j == n {
                    lemma_latin_run_at(s, i, n);
                }
            }
            if l < n && x == s.subrange(l, n) {
                assert(latin_run(s, l, n));
            }
        }
    } else if ascii_alnum(c) {
        assert(l2 == l);
        assert(cs2 == n + 1);
        assert(st2.latin =~= s.subrange(l2, n + 1));
        assert(st2.cjk =~= s.subrange(cs2, n + 1));
        assert(st2.tokens == fc.tokens);
        assert forall|x: Seq<char>| #[trigger] st2.tokens.contains(x) <==> closed_token(s, n + 1, cs2, x) by {
            lemma_grams_contains(s, cs, n, x);
            if exists|i: int, j: int| #[trigger] latin_run(s, i, j) && j < n + 1 && x == s.subrange(i, j) {
                let (i, j) = choose|i: int, j: int| #[trigger] latin_run(s, i, j) && j < n + 1 && x == s.subrange(i, j);
                assert(j != n);
            }
            if exists|i: int| 0 <= i < cs2 && cjk(#[trigger] s[i]) && x == seq![s[i]] {
                let i = choose|i: int| 0 <= i < cs2 && cjk(#[trigger] s[i]) && x == seq![s[i]];
                assert(i != n);
            }
            if exists|i: int| 0 <= i && i + 1 < cs2 && cjk(#[trigger] s[i]) && cjk(s[i + 1]) && x == seq![s[i], s[i + 1]] {
                let i = choose|i: int| 0 <= i && i + 1 < cs2 && cjk(#[trigger] s[i]) && cjk(s[i + 1]) && x == seq![s[i], s[i + 1]];
                assert(i + 1 != n);
                if i < cs && i + 1 >= cs {
                    assert(!cjk(s[cs - 1]));
                }
            }
        }
    } else {
        assert(l2 == n + 1);
        assert(cs2 == n + 1);
        assert(st2.latin =~= s.subrange(l2, n + 1));
        assert(st2.cjk =~= s.subrange(cs2, n + 1));
        let ffl = flush_latin(fc);
        assert(st2.tokens == ffl.tokens);
        assert forall|x: Seq<char>| #[trigger] st2.tokens.contains(x) <==> closed_token(s, n + 1, cs2, x) by {
            lemma_grams_contains(s, cs, n, x);
            if fc.latin.len() > 0 {
                lemma_contains_push(fc.tokens, fc.latin, x);
            }
            if exists|i: int, j: int| #[trigger] latin_run(s, i, j) && j < n + 1 && x == s.subrange(i, j) {
                let (i, j) = choose|i: int, j: int| #[trigger] latin_run(s, i, j) && j < n + 1 && x == s.subrange(i, j);
                if j == n {
                    lemma_latin_run_at(s, i, n);
                }
            }
            if l < n && x == s.subrange(l, n) {
                assert(latin_run(s, l, n));
            }
            if exists|i: int| 0 <= i < cs2 && cjk(#[trigger] s[i]) && x == seq![s[i]] {
                let i = choose|i: int| 0 <= i < cs2 && cjk(#[trigger] s[i]) && x == seq![s[i]];
                assert(i != n);
            }
            if exists|i: int| 0 <= i && i + 1 < cs2 && cjk(#[trigger] s[i]) && cjk(s[i + 1]) && x == seq![s[i], s[i + 1]] {
                let i = choose|i: int| 0 <= i && i + 1 < cs2 && cjk(#[trigger] s[i]) && cjk(s[i + 1]) && x == seq![s[i], s[i + 1]];
                assert(i + 1 != n);
                if i < cs && i + 1 >= cs {
                    assert(!cjk(s[cs - 1]));
                }
            }
        }
    }
}

proof fn lemma_tok_inv(s: Seq<char>, n: int)
    requires
        0 <= n <= s.len(),
    ensures
        tok_inv(s, n),
    decreases n,
{
    if n == 0 {
        let st = tok_prefix(s, 0);
        assert(st.latin =~= s.subrange(0, 0));
        assert(st.cjk =~= s.subrange(0, 0));
        assert forall|x: Seq<char>| #[trigger] st.tokens.contains(x) <==> closed_token(s, 0, 0, x) by {}
    } else {
        lemma_tok_inv(s, n - 1);
        lemma_tok_step(s, n - 1);
    }
}

/// The search tokens of a text are exactly its whole runs of ASCII letters
/// and digits, its ideographs, and its pairs of neighbouring ideographs
/// (unigrams plus bigrams); `cjk_bigram_tokenize` gives each of them once,
/// in increasing order.
pub proof fn law_tokens_are_runs_and_grams(s: Seq<char>, x: Seq<char>)
    ensures
        raw_tokens(s).contains(x) <==> is_token(s, x),
{
    let n = s.len() as int;
    lemma_tok_inv(s, n);
    let st = tok_prefix(s, n);
    let l = latin_start(s, n);
    let cs = cjk_start(s, n);
    lemma_latin_start(s, n);
    lemma_cjk_start(s, n);
    let fc = flush_cjk(st);
    lemma_grams_contains(s, cs, n, x);
    assert(fc.tokens.contains(x) <==> (st.tokens.contains(x) || cjk_grams(s.subrange(cs, n)).contains(x))) by {
        if st.cjk.len() > 0 {
            lemma_contains_concat(st.tokens, cjk_grams(st.cjk), x);
        } else {
            assert(cjk_grams(s.subrange(cs, n)) =~= Seq::<Seq<char>>::empty());
        }
    }
    assert(fc.latin == st.latin);
    if fc.latin.len() > 0 {
        lemma_contains_push(fc.tokens, fc.latin, x);
    }
    if exists|i: int, j: int| #[trigger] latin_run(s, i, j) && x == s.subrange(i, j) {
        let (i, j) = choose|i: int, j: int| #[trigger] latin_run(s, i, j) && x == s.subrange(i, j);
        if j == n {
            lemma_latin_run_at(s, i, n);
        } else {
            assert(latin_run(s, i, j) && j < n && x == s.subrange(i, j));
        }
    }
    if l < n && x == s.subrange(l, n) {
        assert(latin_run(s, l, n));
    }
    if exists|i: int| 0 <= i && i + 1 < n && cjk(#[trigger] s[i]) && cjk(s[i + 1]) && x == seq![s[i], s[i + 1]] {
        let i = choose|i: int| 0 <= i && i + 1 < n && cjk(#[trigger] s[i]) && cjk(s[i + 1]) && x == seq![s[i], s[i + 1]];
        if i < cs && i + 1 >= cs {
            assert(!cjk(s[cs - 1]));
        }
    }
}

/// A text made only of ASCII letters and digits is a single token, itself:
/// numbers are indexed like words.
pub proof fn law_alnum_text_is_one_token(s: Seq<char>, x: Seq<char>)
    requires
        s.len() > 0,
        forall|i: int| 0 <= i < s.len() ==> ('0' <= #[trigger] s[i] <= '9') || ('a' <= s[i] <= 'z') || ('A'
            <= s[i] <= 'Z'),
    ensures
        raw_tokens(s).contains(x) <==> x == s,
{
    law_tokens_are_runs_and_grams(s, x);
    assert(latin_run(s, 0, s.len() as int));
    assert(s.subrange(0, s.len() as int) =~= s);
    if exists|i: int, j: int| #[trigger] latin_run(s, i, j) && x == s.subrange(i, j) {
        let (i, j) = choose|i: int, j: int| #[trigger] latin_run(s, i, j) && x == s.subrange(i, j);
        if i > 0 {
            assert(ascii_alnum(s[i - 1]));
        }
        if j < s.len() {
            assert(ascii_alnum(s[j]));
        }
    }
    if exists|i: int| 0 <= i < s.len() && cjk(#[trigger] s[i]) && x == seq![s[i]] {
        let i = choose|i: int| 0 <= i < s.len() && cjk(#[trigger] s[i]) && x == seq![s[i]];
        assert(!cjk(s[i]));
    }
    if exists|i: int| 0 <= i && i + 1 < s.len() && cjk(#[trigger] s[i]) && cjk(s[i + 1]) && x == seq![s[i], s[i + 1]] {
        let i = choose|i: int| 0 <= i && i + 1 < s.len() && cjk(#[trigger] s[i]) && cjk(s[i + 1]) && x == seq![s[i], s[i + 1]];
        assert(!cjk(s[i]));
    }
}

// ───────────────────────── the order of tokens ─────────────────────────

/// `a` comes before `b` in the order of `str` (lexicographic by code
/// point, which is the order of their UTF-8 bytes).
pub open spec fn lex_lt(a: Seq<char>, b: Seq<char>) -> bool
    decreases a.len(),
{
    if b.len() == 0 {
        false
    } else if a.len() == 0 {
        true
    } else if a[0] != b[0] {
        (a[0] as u32) < (b[0] as u32)
    } else {
        lex_lt(a.drop_first(), b.drop_first())
    }
}

pub proof fn lemma_lex_irreflexive(a: Seq<char>)
    ensures
        !lex_lt(a, a),
    decreases a.len(),
{
    if a.len() > 0 {
        lemma_lex_irreflexive(a.drop_first());
    }
}

pub proof fn lemma_lex_total(a: Seq<char>, b: Seq<char>)
    ensures
        a == b || lex_lt(a, b) || lex_lt(b, a),
    decreases a.len(),
{
    if a.len() > 0 && b.len() > 0 && a[0] == b[0] {
        lemma_lex_total(a.drop_first(), b.drop_first());
        if a.drop_first() == b.drop_first() {
            assert(a =~= seq![a[0]] + a.drop_first());
            assert(b =~= seq![b[0]] + b.drop_first());
        }
    } else if a.len() == 0 && b.len() == 0 {
        assert(a =~= b);
    } else if a.len() > 0 && b.len() > 0 {
        vstd::utf8::char_u32_cast(a[0], a[0] as u32);
        vstd::utf8::char_u32_cast(b[0], b[0] as u32);
        assert(a[0] as u32 != b[0] as u32);
    }
}

pub proof fn lemma_lex_asymmetric(a: Seq<char>, b: Seq<char>)
    ensures
        !(lex_lt(a, b) && lex_lt(b, a)),
    decreases a.len(),
{
    if a.len() > 0 && b.len() > 0 && a[0] == b[0] {
        lemma_lex_asymmetric(a.drop_first(), b.drop_first());
    }
}

pub proof fn lemma_lex_transitive(a: Seq<char>, b: Seq<char>, c: Seq<char>)
    requires
        lex_lt(a, b),
        lex_lt(b, c),
    ensures
        lex_lt(a, c),
    decreases a.len(),
{
    if a.len() > 0 && b.len() > 0 && c.len() > 0 && a[0] == b[0] && b[0] == c[0] {
        lemma_lex_transitive(a.drop_first(), b.drop_first(), c.drop_first());
    }
}

/// Decides `lex_lt`.
pub fn lex_lt_exec(a: &Vec<char>, b: &Vec<char>) -> (r: bool)
    ensures
        r == lex_lt(a@, b@),
{
    let mut i: usize = 0;
    assert(a@.skip(0) =~= a@);
    assert(b@.skip(0) =~= b@);
    while i < a.len() && i < b.len() && a[i] == b[i]
        invariant
            i <= a.len(),
            i <= b.len(),
            lex_lt(a@, b@) == lex_lt(a@.skip(i as int), b@.skip(i as int)),
        decreases a.len() - i,
    {
        assert(a@.skip(i as int).drop_first() =~= a@.skip(i + 1));
        assert(b@.skip(i as int).drop_first() =~= b@.skip(i + 1));
        i = i + 1;
    }
    if i == b.len() {
        false
    } else if i == a.len() {
        true
    } else {
        (a[i] as u32) < (b[i] as u32)
    }
}

/// A list in strictly increasing order (so with no repeats).
pub open spec fn strictly_sorted(v: Seq<Seq<char>>) -> bool {
    forall|i: int, j: int| 0 <= i < j < v.len() ==> lex_lt(#[trigger] v[i], #[trigger] v[j])
}

/// Inserts `t` into a strictly sorted list, unless it is there already.
pub fn insert_sorted(r: &mut Vec<Vec<char>>, t: Vec<char>)
    requires
        strictly_sorted(vviews(old(r)@)),
    ensures
        strictly_sorted(final(r)@.map_values(|x: Vec<char>| x@)),
        forall|x: Seq<char>| #[trigger] vviews(final(r)@).contains(x) <==> (vviews(old(r)@).contains(x) || x == t@),
{
    let ghost old_v = vviews(r@);
    let mut p: usize = 0;
    while p < r.len() && lex_lt_exec(&r[p], &t)
        invariant
            p <= r.len(),
            vviews(r@) == old_v,
            forall|k: int| 0 <= k < p ==> lex_lt(#[trigger] old_v[k], t@),
        decreases r.len() - p,
    {
        p = p + 1;
    }
    if p < r.len() && chars_eq(&r[p], &t) {
        assert(vviews(r@)[p as int] == t@);
        return;
    }
    let ghost tv = t@;
    r.insert(p, t);
    let ghost new_v = vviews(r@);
    assert(new_v =~= old_v.insert(p as int, tv));
    assert forall|i: int, j: int| 0 <= i < j < new_v.len() implies lex_lt(
        #[trigger] new_v[i],
        #[trigger] new_v[j],
    ) by {
        if p < old_v.len() {
            lemma_lex_total(old_v[p as int], tv);
            lemma_lex_asymmetric(old_v[p as int], tv);
        }
        if j < p {
        } else if j == p {
        } else if i < p {
            // i < p < j: old_v[i] < t < old_v[j - 1]
            if j - 1 > p {
                lemma_lex_transitive(tv, old_v[p as int], old_v[j - 1]);
            }
            lemma_lex_transitive(old_v[i], tv, old_v[j - 1]);
        } else if i == p {
            if j - 1 > p {
                lemma_lex_transitive(tv, old_v[p as int], old_v[j - 1]);
            }
        } else {
        }
    }
    assert forall|x: Seq<char>| #[trigger] new_v.contains(x) <==> (old_v.contains(x) || x == tv) by {
        if new_v.contains(x) {
            let k = choose|k: int| 0 <= k < new_v.len() && new_v[k] == x;
            if k < p {
                assert(old_v[k] == x);
            } else if k > p {
                assert(old_v[k - 1] == x);
            }
        }
        if old_v.contains(x) {
            let k = choose|k: int| 0 <= k < old_v.len() && old_v[k] == x;
            if k < p {
                assert(new_v[k] == x);
            } else {
                assert(new_v[k + 1] == x);
            }
        }
        if x == tv {
            assert(new_v[p as int] == x);
        }
    }
}

/// The distinct items of a list, in increasing order.
fn sort_dedup(v: &Vec<Vec<char>>) -> (r: Vec<Vec<char>>)
    ensures
        strictly_sorted(vviews(r@)),
        forall|x: Seq<char>| #[trigger] vviews(r@).contains(x) <==> vviews(v@).contains(x),
{
    let mut r: Vec<Vec<char>> = Vec::new();
    let mut i: usize = 0;
    while i < v.len()
        invariant
            i <= v.len(),
            strictly_sorted(vviews(r@)),
            forall|x: Seq<char>| #[trigger] vviews(r@).contains(x) <==> vviews(v@).take(i as int).contains(x),
        decreases v.len() - i,
    {
        let t = crate::text::copy_chars(&v[i]);
        insert_sorted(&mut r, t);
        proof {
            assert(vviews(v@).take(i + 1) =~= vviews(v@).take(i as int).push(v@[i as int]@));
            assert forall|x: Seq<char>| #[trigger] vviews(v@).take(i + 1).contains(x) <==> (vviews(v@).take(i as int).contains(x) || x == v@[i as int]@) by {
                let w = vviews(v@).take(i as int);
                if w.push(v@[i as int]@).contains(x) {
                    let k = choose|k: int| 0 <= k < w.len() + 1 && w.push(v@[i as int]@)[k] == x;
                    if k < w.len() {
                        assert(w[k] == x);
                    }
                }
                if w.contains(x) {
                    let k = choose|k: int| 0 <= k < w.len() && w[k] == x;
                    assert(w.push(v@[i as int]@)[k] == x);
                }
                if x == v@[i as int]@ {
                    assert(w.push(v@[i as int]@)[w.len() as int] == x);
                }
            }
        }
        i = i + 1;
    }
    assert(vviews(v@).take(v@.len() as int) =~= vviews(v@));
    r
}

/// Whether `c` is an ASCII letter or digit.
fn is_ascii_alnum(c: char) -> (r: bool)
    ensures
        r == ascii_alnum(c),
{
    ('0' <= c && c <= '9') || ('a' <= c && c <= 'z') || ('A' <= c && c <= 'Z')
}

/// Emits the open ideograph run.
fn flush_cjk_exec(tokens: &mut Vec<Vec<char>>, cjk_buf: &mut Vec<char>, latin: &Vec<char>)
    ensures
        (TokState { tokens: vviews(final(tokens)@), cjk: final(cjk_buf)@, latin: latin@ }) == flush_cjk(
            TokState { tokens: vviews(old(tokens)@), cjk: old(cjk_buf)@, latin: latin@ },
        ),
{
    if cjk_buf.len() > 0 {
        let grams = cjk_bigram_from_buf(cjk_buf.as_slice());
        let ghost g = grams@.map_values(|x: String| x@);
        let ghost base = vviews(tokens@);
        let mut k: usize = 0;
        while k < grams.len()
            invariant
                k <= grams.len(),
                g == grams@.map_values(|x: String| x@),
                vviews(tokens@) == base + g.take(k as int),
            decreases grams.len() - k,
        {
            let w = to_chars(grams[k].as_str());
            let ghost before = vviews(tokens@);
            tokens.push(w);
            assert(vviews(tokens@) =~= before.push(g[k as int]));
            assert(g.take(k + 1) =~= g.take(k as int).push(g[k as int]));
            k = k + 1;
        }
        assert(g.take(grams@.len() as int) =~= g);
        *cjk_buf = Vec::new();
    }
}

/// Emits the open Latin run.
fn flush_latin_exec(tokens: &mut Vec<Vec<char>>, cjk_buf: &Vec<char>, latin: &mut Vec<char>)
    ensures
        (TokState { tokens: vviews(final(tokens)@), cjk: cjk_buf@, latin: final(latin)@ }) == flush_latin(
            TokState { tokens: vviews(old(tokens)@), cjk: cjk_buf@, latin: old(latin)@ },
        ),
{
    if latin.len() > 0 {
        let w = crate::text::copy_chars(latin);
        let ghost before = vviews(tokens@);
        tokens.push(w);
        assert(vviews(tokens@) =~= before.push(old(latin)@));
        *latin = Vec::new();
    }
}

/// Splits a text into its search tokens: each whole run of ASCII letters and
/// digits, each ideograph and each pair of neighbouring ideographs (see
/// `is_token`), every distinct token once, in increasing order.
pub fn cjk_bigram_tokenize(text: &str) -> (r: Vec<String>)
    ensures
        strictly_sorted(sviews(r@)),
        forall|x: Seq<char>| #[trigger] sviews(r@).contains(x) <==> raw_tokens(text@).contains(x),
        forall|x: Seq<char>| #[trigger] sviews(r@).contains(x) <==> is_token(text@, x),
{
    let s = to_chars(text);
    let mut tokens: Vec<Vec<char>> = Vec::new();
    let mut cjk_buf: Vec<char> = Vec::new();
    let mut latin: Vec<char> = Vec::new();
    let mut i: usize = 0;
    assert(vviews(tokens@) =~= seq![]);
    while i < s.len()
        invariant
            i <= s.len(),
            s@ == text@,
            (TokState { tokens: vviews(tokens@), cjk: cjk_buf@, latin: latin@ }) == tok_prefix(s@, i as int),
        decreases s.len() - i,
    {
        let ch = s[i];
        if is_cjk(ch) {
            flush_latin_exec(&mut tokens, &cjk_buf, &mut latin);
            cjk_buf.push(ch);
        } else if is_ascii_alnum(ch) {
            flush_cjk_exec(&mut tokens, &mut cjk_buf, &latin);
            latin.push(ch);
        } else {
            flush_cjk_exec(&mut tokens, &mut cjk_buf, &latin);
            flush_latin_exec(&mut tokens, &cjk_buf, &mut latin);
        }
        i = i + 1;
    }
    flush_cjk_exec(&mut tokens, &mut cjk_buf, &latin);
    flush_latin_exec(&mut tokens, &cjk_buf, &mut latin);
    let sorted = sort_dedup(&tokens);
    let mut r: Vec<String> = Vec::new();
    let mut k: usize = 0;
    while k < sorted.len()
        invariant
            k <= sorted.len(),
            r@.map_values(|x: String| x@) == vviews(sorted@).take(k as int),
        decreases sorted.len() - k,
    {
        let ghost before = r@.map_values(|x: String| x@);
        r.push(crate::text::from_chars(&sorted[k]));
        assert(r@.map_values(|x: String| x@) =~= before.push(sorted@[k as int]@));
        assert(vviews(sorted@).take(k + 1) =~= vviews(sorted@).take(k as int).push(sorted@[k as int]@));
        k = k + 1;
    }
    assert(vviews(sorted@).take(sorted@.len() as int) =~= vviews(sorted@));
    proof {
        assert forall|x: Seq<char>| #[trigger] sviews(r@).contains(x) <==> is_token(text@, x) by {
            law_tokens_are_runs_and_grams(text@, x);
            assert(sviews(r@).contains(x) <==> raw_tokens(text@).contains(x));
        }
    }
    r
}

// ───────────────────────── the text of a page ─────────────────────────

/// Script elements, with their content.
pub const SCRIPT_ELEMENTS: &'static str = "(?is)<script[^>]*>.*?</script>";
/// Style elements, with their content.
pub const STYLE_ELEMENTS: &'static str = "(?is)<style[^>]*>.*?</style>";
/// SVG elements, with their content.
pub const SVG_ELEMENTS: &'static str = "(?is)<svg[^>]*>.*?</svg>";
/// Any tag.
pub const ANY_TAG: &'static str = "<[^>]+>";
/// A run of whitespace.
pub const WHITESPACE_RUN: &'static str = "\\s+";
/// The page title.
pub const TITLE_ELEMENT: &'static str = "(?i)<title>([^<]*)</title>";
/// The content area of an mdbook page, by id.
pub const CONTENT_BY_ID: &'static str = "(?is)<div[^>]*id=\"mdbook-content\"[^>]*>(.*?)</div>";
/// The content area of an mdbook page, by class.
pub const CONTENT_BY_CLASS: &'static str = "(?is)<div[^>]*class=\"content\"[^>]*>(.*?)</div>";
/// The main element.
pub const MAIN_ELEMENT: &'static str = "(?is)<main[^>]*>(.*?)</main>";
/// A script tag that loads the search library the index replaces.
pub const OLD_SEARCH_SCRIPT: &'static str = "(?i)<script[^>]*?(?:elasticlunr\\.min\\.js|minisearch\\.umd\\.js)[^>]*>\\s*</script>";

/// The text of an HTML fragment: scripts, styles and SVG removed, tags
/// replaced by spaces, five entities decoded, whitespace runs collapsed to
/// one space, trimmed.
pub open spec fn page_text(html: Seq<char>) -> Seq<char> {
    let s1 = regex_replaced_all(SCRIPT_ELEMENTS@, html, " "@);
    let s2 = regex_replaced_all(STYLE_ELEMENTS@, s1, " "@);
    let s3 = regex_replaced_all(SVG_ELEMENTS@, s2, " "@);
    let t = regex_replaced_all(ANY_TAG@, s3, " "@);
    let d = replaced(
        replaced(replaced(replaced(replaced(t, "&nbsp;"@, " "@), "&amp;"@, "&"@), "&lt;"@, "<"@), "&gt;"@, ">"@),
        "&quot;"@,
        "\""@,
    );
    trim(regex_replaced_all(WHITESPACE_RUN@, d, " "@))
}

/// The trimmed copy of a text.
fn trimmed(s: &str) -> (r: String)
    ensures
        r@ == trim(s@),
{
    let cs = to_chars(s);
    let (a, b) = trim_range(&cs, 0, cs.len());
    assert(cs@.subrange(0, cs@.len() as int) =~= cs@);
    let mut r = String::new();
    push_range(&mut r, &cs, a, b);
    r
}

/// Extracts the text of an HTML fragment (see `page_text`).
pub fn extract_text(html: &str) -> (r: String)
    ensures
        r@ == page_text(html@),
{
    proof {
        reveal_strlit("&nbsp;");
        reveal_strlit("&amp;");
        reveal_strlit("&lt;");
        reveal_strlit("&gt;");
        reveal_strlit("&quot;");
    }
    let s1 = regex_replace_all(SCRIPT_ELEMENTS, html, " ");
    let s2 = regex_replace_all(STYLE_ELEMENTS, s1.as_str(), " ");
    let s3 = regex_replace_all(SVG_ELEMENTS, s2.as_str(), " ");
    let t = regex_replace_all(ANY_TAG, s3.as_str(), " ");
    let tc = to_chars(t.as_str());
    let mut d = replace_str(&tc, "&nbsp;", " ");
    d = replace_str(&d, "&amp;", "&");
    d = replace_str(&d, "&lt;", "<");
    d = replace_str(&d, "&gt;", ">");
    d = replace_str(&d, "&quot;", "\"");
    let ds = crate::text::from_chars(&d);
    let w = regex_replace_all(WHITESPACE_RUN, ds.as_str(), " ");
    trimmed(w.as_str())
}

/// The page title (trimmed), or nothing.
pub open spec fn page_title(html: Seq<char>) -> Seq<char> {
    match regex_first_group(TITLE_ELEMENT@, html, 1) {
        Some(Some(t)) => trim(t),
        _ => seq![],
    }
}

/// Extracts the text of the `<title>` element.
pub fn extract_title(html: &str) -> (r: String)
    ensures
        r@ == page_title(html@),
{
    match regex_capture(TITLE_ELEMENT, html, 1) {
        Some(Some(t)) => trimmed(t.as_str()),
        _ => String::new(),
    }
}

/// The group of a capture, or nothing when it is unset.
pub open spec fn group_or_empty(g: Option<Seq<char>>) -> Seq<char> {
    match g {
        Some(t) => t,
        None => seq![],
    }
}

/// The content of a page: inside the `mdbook-content` div, else the
/// `content` div, else `<main>`; nothing when none is there.
pub open spec fn page_body(html: Seq<char>) -> Seq<char> {
    match regex_first_group(CONTENT_BY_ID@, html, 1) {
        Some(g) => group_or_empty(g),
        None => match regex_first_group(CONTENT_BY_CLASS@, html, 1) {
            Some(g) => group_or_empty(g),
            None => match regex_first_group(MAIN_ELEMENT@, html, 1) {
                Some(g) => group_or_empty(g),
                None => seq![],
            },
        },
    }
}

/// The group of a capture as a string.
fn group_string(g: Option<String>) -> (r: String)
    ensures
        r@ == group_or_empty(
            match g {
                Some(t) => Some(t@),
                None => None,
            },
        ),
{
    match g {
        Some(t) => t,
        None => String::new(),
    }
}

/// Extracts the content area of a page (see `page_body`).
pub fn extract_body(html: &str) -> (r: String)
    ensures
        r@ == page_body(html@),
{
    match regex_capture(CONTENT_BY_ID, html, 1) {
        Some(g) => return group_string(g),
        None => {},
    }
    match regex_capture(CONTENT_BY_CLASS, html, 1) {
        Some(g) => return group_string(g),
        None => {},
    }
    match regex_capture(MAIN_ELEMENT, html, 1) {
        Some(g) => group_string(g),
        None => String::new(),
    }
}

// ───────────────────────── the pages ─────────────────────────

/// A file found while scanning the HTML output is indexed: an `.html` page
/// other than `print.html` and `404.html`.
pub open spec fn indexed_page(name: Seq<char>) -> bool {
    crate::text::ends_with(name, ".html"@) && name != "print.html"@ && name != "404.html"@
}

/// Whether a file of the HTML output is indexed (see `indexed_page`).
pub fn is_indexed_page(name: &str) -> (r: bool)
    ensures
        r == indexed_page(name@),
{
    let n = to_chars(name);
    crate::text::ends_with_str(&n, ".html") && !crate::text::str_eq(name, "print.html")
        && !crate::text::str_eq(name, "404.html")
}

/// The URL of an entry `name` of the directory at URL `base_url` (the
/// root has the empty URL).
pub open spec fn page_url(base_url: Seq<char>, name: Seq<char>) -> Seq<char> {
    if base_url.len() == 0 {
        name
    } else {
        base_url + "/"@ + name
    }
}

/// The URL of an entry of a scanned directory (see `page_url`).
pub fn entry_url(base_url: &str, name: &str) -> (r: String)
    ensures
        r@ == page_url(base_url@, name@),
{
    proof {
        reveal_strlit("");
        assert(""@ =~= Seq::<char>::empty());
        if base_url@.len() == 0 {
            assert(base_url@ =~= ""@);
        }
    }
    let mut r = String::new();
    if crate::text::str_eq(base_url, "") {
        r.append(name);
    } else {
        r.append(base_url);
        r.append("/");
        r.append(name);
    }
    r
}

/// A page without the script tags of the replaced search library; `None`
/// when it has none.
pub open spec fn without_old_search(html: Seq<char>) -> Option<Seq<char>> {
    let r = regex_replaced_all(OLD_SEARCH_SCRIPT@, html, ""@);
    if r == html {
        None
    } else {
        Some(r)
    }
}

/// Removes the script tags of the replaced search library from a page;
/// `None` when the page is left as it was (and need not be written).
pub fn strip_old_search(html: &str) -> (r: Option<String>)
    ensures
        crate::pattern::opt_string_view(r) == without_old_search(html@),
{
    let r = regex_replace_all(OLD_SEARCH_SCRIPT, html, "");
    if crate::text::str_eq(r.as_str(), html) {
        None
    } else {
        Some(r)
    }
}

/// The script that hands the index to the search page.
pub open spec fn index_script(json: Seq<char>) -> Seq<char> {
    "window.searchData = "@ + json + ";"@
}

/// Wraps the index (as JSON) in the script the search page loads.
pub fn search_index_js(json: &str) -> (r: String)
    ensures
        r@ == index_script(json@),
{
    let mut r = String::new();
    r.append("window.searchData = ");
    r.append(json);
    r.append(";");
    r
}

// ───────────────────────── the index ─────────────────────────

/// A document of the index.
pub struct SearchDoc {
    pub id: usize,
    pub url: String,
    pub title: String,
    pub body: String,
}

/// The index: its documents, and for each token `tokens[i]` the ids of the
/// documents it occurs in, `postings[i]`.
pub struct SearchIndex {
    pub documents: Vec<SearchDoc>,
    pub tokens: Vec<String>,
    pub postings: Vec<Vec<usize>>,
}

/// The text a document is searched by: its title and body, lower-cased.
pub open spec fn search_text(title: Seq<char>, body: Seq<char>) -> Seq<char> {
    unicode_lowercase(title + " "@ + body)
}

/// The ids of the texts (their positions) that have the token `t`, in
/// increasing order.
pub open spec fn postings_of(texts: Seq<Seq<char>>, t: Seq<char>) -> Seq<usize>
    decreases texts.len(),
{
    if texts.len() == 0 {
        seq![]
    } else {
        postings_of(texts.drop_last(), t) + if raw_tokens(texts.last()).contains(t) {
            seq![(texts.len() - 1) as usize]
        } else {
            seq![]
        }
    }
}

/// A text none of whose documents has `t` gives it no postings.
proof fn lemma_no_postings(texts: Seq<Seq<char>>, t: Seq<char>)
    requires
        forall|k: int| 0 <= k < texts.len() ==> !raw_tokens(#[trigger] texts[k]).contains(t),
    ensures
        postings_of(texts, t) == Seq::<usize>::empty(),
    decreases texts.len(),
{
    if texts.len() > 0 {
        assert forall|k: int| 0 <= k < texts.drop_last().len() implies !raw_tokens(
            #[trigger] texts.drop_last()[k],
        ).contains(t) by {
            assert(texts.drop_last()[k] == texts[k]);
        }
        lemma_no_postings(texts.drop_last(), t);
        assert(raw_tokens(texts[texts.len() - 1]).contains(t) == false);
    }
}

/// The search texts of the documents.
pub open spec fn doc_texts(docs: Seq<SearchDoc>) -> Seq<Seq<char>> {
    docs.map_values(|d: SearchDoc| search_text(d.title@, d.body@))
}

/// `tokens` and `postings` index the texts: each token once, with the
/// documents that have it (at least one), and every token of every text
/// listed.
pub open spec fn indexes(texts: Seq<Seq<char>>, tokens: Seq<Seq<char>>, postings: Seq<Seq<usize>>) -> bool {
    &&& tokens.len() == postings.len()
    &&& forall|a: int, b: int| 0 <= a < b < tokens.len() ==> #[trigger] tokens[a] != #[trigger] tokens[b]
    &&& forall|a: int| 0 <= a < tokens.len() ==> #[trigger] postings[a] == postings_of(texts, tokens[a])
    &&& forall|a: int| 0 <= a < tokens.len() ==> #[trigger] postings[a].len() > 0
    &&& forall|k: int, t: Seq<char>|
        0 <= k < texts.len() && #[trigger] raw_tokens(texts[k]).contains(t) ==> tokens.contains(t)
}

/// The views of a list of id lists.
pub open spec fn id_views(v: Seq<Vec<usize>>) -> Seq<Seq<usize>> {
    v.map_values(|x: Vec<usize>| x@)
}

/// Appends `k` to the list at `a`.
fn push_id(post: &mut Vec<Vec<usize>>, a: usize, k: usize)
    requires
        a < old(post).len(),
    ensures
        final(post)@.len() == old(post)@.len(),
        id_views(final(post)@) == id_views(old(post)@).update(a as int, old(post)@[a as int]@.push(k)),
{
    let mut ids: Vec<usize> = Vec::new();
    let mut i: usize = 0;
    while i < post[a].len()
        invariant
            a < post.len(),
            i <= post[a as int].len(),
            ids@ == post[a as int]@.take(i as int),
        decreases post[a as int].len() - i,
    {
        ids.push(post[a][i]);
        assert(post[a as int]@.take(i + 1) =~= post[a as int]@.take(i as int).push(post[a as int]@[i as int]));
        i = i + 1;
    }
    assert(post[a as int]@.take(post[a as int]@.len() as int) =~= post[a as int]@);
    ids.push(k);
    let ghost before = id_views(post@);
    post.set(a, ids);
    assert(id_views(post@) =~= before.update(a as int, old(post)@[a as int]@.push(k)));
}

/// Builds the index of the pages, given as (URL, HTML): each page becomes
/// document number its position, with its title and the text of its
/// content; each token of a document's title and text, lower-cased, maps
/// to the documents that have it.
pub fn build_index(pages: &Vec<(String, String)>) -> (r: SearchIndex)
    ensures
        r.documents.len() == pages.len(),
        forall|k: int| 0 <= k < pages.len() ==> {
            let d = #[trigger] r.documents@[k];
            &&& d.id == k
            &&& d.url@ == pages@[k].0@
            &&& d.title@ == page_title(pages@[k].1@)
            &&& d.body@ == page_text(page_body(pages@[k].1@))
        },
        indexes(doc_texts(r.documents@), sviews(r.tokens@), id_views(r.postings@)),
{
    let mut docs: Vec<SearchDoc> = Vec::new();
    let mut tokens: Vec<String> = Vec::new();
    let mut post: Vec<Vec<usize>> = Vec::new();
    let mut k: usize = 0;
    while k < pages.len()
        invariant
            k <= pages.len(),
            docs.len() == k,
            forall|m: int| 0 <= m < k ==> {
                let d = #[trigger] docs@[m];
                &&& d.id == m
                &&& d.url@ == pages@[m].0@
                &&& d.title@ == page_title(pages@[m].1@)
                &&& d.body@ == page_text(page_body(pages@[m].1@))
            },
            indexes(doc_texts(docs@), sviews(tokens@), id_views(post@)),
        decreases pages.len() - k,
    {
        let html = pages[k].1.as_str();
        let title = extract_title(html);
        let body_html = extract_body(html);
        let body = extract_text(body_html.as_str());
        let mut text = String::new();
        text.append(title.as_str());
        text.append(" ");
        text.append(body.as_str());
        let lower = to_lowercase(text.as_str());
        let toks = cjk_bigram_tokenize(lower.as_str());
        let ghost texts = doc_texts(docs@);
        let ghost tk = search_text(title@, body@);
        assert(lower@ == tk);
        let mut j: usize = 0;
        while j < toks.len()
            invariant
                j <= toks.len(),
                k == texts.len(),
                texts == doc_texts(docs@),
                strictly_sorted(sviews(toks@)),
                tokens.len() == post.len(),
                forall|a: int, b: int| 0 <= a < b < tokens.len() ==> #[trigger] sviews(tokens@)[a] != #[trigger] sviews(tokens@)[b],
                forall|a: int| 0 <= a < tokens.len() ==> #[trigger] id_views(post@)[a] == postings_of(texts, sviews(tokens@)[a]) + if sviews(toks@).take(j as int).contains(sviews(tokens@)[a]) {
                    seq![k]
                } else {
                    seq![]
                },
                forall|a: int| 0 <= a < tokens.len() ==> #[trigger] id_views(post@)[a].len() > 0,
                forall|m: int, t: Seq<char>| 0 <= m < texts.len() && #[trigger] raw_tokens(texts[m]).contains(t) ==> sviews(tokens@).contains(t),
                forall|t: Seq<char>| #[trigger] sviews(toks@).take(j as int).contains(t) ==> sviews(tokens@).contains(t),
            decreases toks.len() - j,
        {
            let t = toks[j].as_str();
            let ghost tv = toks@[j as int]@;
            let ghost w0 = sviews(toks@).take(j as int);
            let ghost w1 = sviews(toks@).take(j + 1);
            proof {
                // a sorted list has no repeats
                assert(!w0.contains(tv)) by {
                    if w0.contains(tv) {
                        let m = choose|m: int| 0 <= m < j && w0[m] == tv;
                        assert(lex_lt(sviews(toks@)[m], sviews(toks@)[j as int]));
                        lemma_lex_irreflexive(tv);
                    }
                }
                assert(w1 =~= w0.push(tv));
            }
            let mut a: usize = 0;
            while a < tokens.len() && !crate::text::str_eq(tokens[a].as_str(), t)
                invariant
                    a <= tokens.len(),
                    t@ == tv,
                    forall|b: int| 0 <= b < a ==> sviews(tokens@)[b] != tv,
                decreases tokens.len() - a,
            {
                a = a + 1;
            }
            assert(a < tokens.len() ==> sviews(tokens@)[a as int] == tv);
            if a < tokens.len() {
                let ghost old_post = id_views(post@);
                push_id(&mut post, a, k);
                proof {
                    assert forall|b: int| 0 <= b < tokens.len() implies #[trigger] id_views(post@)[b] == postings_of(texts, sviews(tokens@)[b]) + if w1.contains(sviews(tokens@)[b]) {
                        seq![k]
                    } else {
                        seq![]
                    } by {
                        let key = sviews(tokens@)[b];
                        if b != a {
                            assert(key != tv);
                            assert(w1.contains(key) == w0.contains(key)) by {
                                if w1.contains(key) {
                                    let m = choose|m: int| 0 <= m < j + 1 && w1[m] == key;
                                    assert(w0[m] == key);
                                }
                                if w0.contains(key) {
                                    let m = choose|m: int| 0 <= m < j && w0[m] == key;
                                    assert(w1[m] == key);
                                }
                            }
                        } else {
                            assert(w1[j as int] == tv);
                            let p0 = postings_of(texts, tv);
                            assert(old_post[b] == p0 + Seq::<usize>::empty());
                            assert((p0 + Seq::<usize>::empty()).push(k) =~= p0 + seq![k]);
                        }
                    }
                    assert forall|t2: Seq<char>| #[trigger] w1.contains(t2) implies sviews(tokens@).contains(t2) by {
                        let m = choose|m: int| 0 <= m < j + 1 && w1[m] == t2;
                        if m < j {
                            assert(w0[m] == t2);
                            assert(w0.contains(t2));
                        } else {
                            assert(w1[j as int] == tv);
                            assert(sviews(tokens@)[a as int] == t2);
                        }
                    }
                }
            } else {
                proof {
                    assert forall|m: int| 0 <= m < texts.len() implies !raw_tokens(#[trigger] texts[m]).contains(tv) by {
                        if raw_tokens(texts[m]).contains(tv) {
                            assert(sviews(tokens@).contains(tv));
                            let b = choose|b: int| 0 <= b < tokens.len() && sviews(tokens@)[b] == tv;
                        }
                    }
                    lemma_no_postings(texts, tv);
                }
                let ghost old_tokens = sviews(tokens@);
                let ghost old_post = id_views(post@);
                tokens.push(toks[j].clone());
                let mut ids: Vec<usize> = Vec::new();
                ids.push(k);
                post.push(ids);
                proof {
                    assert(sviews(tokens@) =~= old_tokens.push(tv));
                    assert(id_views(post@) =~= old_post.push(seq![k]));
                    assert forall|b: int| 0 <= b < tokens.len() implies #[trigger] id_views(post@)[b] == postings_of(texts, sviews(tokens@)[b]) + if w1.contains(sviews(tokens@)[b]) {
                        seq![k]
                    } else {
                        seq![]
                    } by {
                        let key = sviews(tokens@)[b];
                        if b < old_tokens.len() {
                            assert(key == old_tokens[b]);
                            assert(key != tv);
                            assert(w1.contains(key) == w0.contains(key)) by {
                                if w1.contains(key) {
                                    let m = choose|m: int| 0 <= m < j + 1 && w1[m] == key;
                                    assert(w0[m] == key);
                                }
                                if w0.contains(key) {
                                    let m = choose|m: int| 0 <= m < j && w0[m] == key;
                                    assert(w1[m] == key);
                                }
                            }
                        } else {
                            assert(w1[j as int] == tv);
                            assert(postings_of(texts, tv) + seq![k] =~= seq![k]);
                        }
                    }
                    assert forall|m: int, t2: Seq<char>| 0 <= m < texts.len() && #[trigger] raw_tokens(texts[m]).contains(t2) implies sviews(tokens@).contains(t2) by {
                        assert(old_tokens.contains(t2));
                        let b = choose|b: int| 0 <= b < old_tokens.len() && old_tokens[b] == t2;
                        assert(sviews(tokens@)[b] == t2);
                    }
                    assert forall|t2: Seq<char>| #[trigger] w1.contains(t2) implies sviews(tokens@).contains(t2) by {
                        let m = choose|m: int| 0 <= m < j + 1 && w1[m] == t2;
                        if m < j {
                            assert(w0[m] == t2);
                            assert(w0.contains(t2));
                            assert(old_tokens.contains(t2));
                            let b = choose|b: int| 0 <= b < old_tokens.len() && old_tokens[b] == t2;
                            assert(sviews(tokens@)[b] == t2);
                        } else {
                            assert(sviews(tokens@)[old_tokens.len() as int] == t2);
                        }
                    }
                }
            }
            j = j + 1;
        }
        let ghost old_docs = docs@;
        docs.push(SearchDoc { id: k, url: pages[k].0.clone(), title, body });
        proof {
            let texts2 = doc_texts(docs@);
            assert(texts2 =~= texts.push(tk));
            assert(sviews(toks@).take(toks@.len() as int) =~= sviews(toks@));
            assert forall|a: int| 0 <= a < tokens.len() implies #[trigger] id_views(post@)[a] == postings_of(texts2, sviews(tokens@)[a]) by {
                assert(texts2.drop_last() =~= texts);
            }
            assert forall|m: int, t2: Seq<char>| 0 <= m < texts2.len() && #[trigger] raw_tokens(texts2[m]).contains(t2) implies sviews(tokens@).contains(t2) by {
                if m < texts.len() {
                    assert(texts2[m] == texts[m]);
                } else {
                    assert(sviews(toks@).take(toks@.len() as int).contains(t2));
                }
            }
            assert forall|m: int| 0 <= m < k + 1 implies {
                let d = #[trigger] docs@[m];
                &&& d.id == m
                &&& d.url@ == pages@[m].0@
                &&& d.title@ == page_title(pages@[m].1@)
                &&& d.body@ == page_text(page_body(pages@[m].1@))
            } by {
                if m < k {
                    assert(docs@[m] == old_docs[m]);
                }
            }
        }
        k = k + 1;
    }
    SearchIndex { documents: docs, tokens, postings: post }
}

} // verus!
