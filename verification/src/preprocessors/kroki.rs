//! mdbook-kroki-preprocessor: diagrams rendered remotely by Kroki.
use vstd::prelude::*;
use crate::pattern::{groups_view, pieces_view, regex_pieces, regex_split};
use crate::preprocessors::embedify::group_text;
use base64::Engine;
use std::io::Write;

verus! {

/// The preprocessor.
pub struct KrokiPreprocessor;

impl KrokiPreprocessor {
    /// The name mdbook knows the preprocessor by.
    pub fn name(&self) -> (r: &'static str)
        ensures
            r@ == "mdbook-kroki-preprocessor"@,
    {
        "mdbook-kroki-preprocessor"
    }

    /// Every renderer is supported except the one named `not-supported`.
    pub fn supports_renderer(&self, renderer: &str) -> (r: bool)
        ensures
            r == (renderer@ != "not-supported"@),
    {
        !crate::text::str_eq(renderer, "not-supported")
    }
}

// ───────────────────────── the request ─────────────────────────

/// The bytes of a text, compressed with DEFLATE at the best level, as
/// `flate2`'s `DeflateEncoder` writes them.
pub uninterp spec fn deflated(bytes: Seq<u8>) -> Seq<u8>;

/// `flate2::write::DeflateEncoder` with `Compression::best()`, over a
/// vector (writing into a vector does not fail; an error would give the
/// empty output).
#[verifier::external_body]
fn deflate_best(bytes: &[u8]) -> (r: Vec<u8>)
    ensures
        r@ == deflated(bytes@),
{
    let mut encoder = flate2::write::DeflateEncoder::new(Vec::new(), flate2::Compression::best());
    if encoder.write_all(bytes).is_err() {
        return Vec::new();
    }
    match encoder.finish() {
        Ok(v) => v,
        Err(_) => Vec::new(),
    }
}

/// The URL-safe base64 digit of `n` (below 64).
pub open spec fn b64_digit(n: int) -> char {
    if n < 26 {
        (65 + n) as char
    } else if n < 52 {
        (97 + n - 26) as char
    } else if n < 62 {
        (48 + n - 52) as char
    } else if n == 62 {
        '-'
    } else {
        '_'
    }
}

/// RFC 4648 base64 with the URL-safe alphabet and no padding: each three
/// bytes become four digits; two bytes left over become three digits, one
/// becomes two.
pub open spec fn base64_url(b: Seq<u8>) -> Seq<char>
    decreases b.len(),
{
    let b0 = b[0] as int;
    let b1 = b[1] as int;
    let b2 = b[2] as int;
    if b.len() == 0 {
        seq![]
    } else if b.len() == 1 {
        seq![b64_digit(b0 / 4), b64_digit((b0 % 4) * 16)]
    } else if b.len() == 2 {
        seq![b64_digit(b0 / 4), b64_digit((b0 % 4) * 16 + b1 / 16), b64_digit((b1 % 16) * 4)]
    } else {
        seq![
            b64_digit(b0 / 4),
            b64_digit((b0 % 4) * 16 + b1 / 16),
            b64_digit((b1 % 16) * 4 + b2 / 64),
            b64_digit(b2 % 64),
        ] + base64_url(b.skip(3))
    }
}

/// `base64::engine::general_purpose::URL_SAFE_NO_PAD.encode` (see
/// `base64_url`).
#[verifier::external_body]
fn base64_url_no_pad(bytes: &[u8]) -> (r: String)
    ensures
        r@ == base64_url(bytes@),
{
    base64::engine::general_purpose::URL_SAFE_NO_PAD.encode(bytes)
}

/// A diagram's source as Kroki takes it in a URL: DEFLATE-compressed, then
/// URL-safe base64.
pub open spec fn kroki_encoded(body: Seq<char>) -> Seq<char> {
    base64_url(deflated(vstd::utf8::encode_utf8(body)))
}

/// Encodes a diagram's source for a Kroki URL (see `kroki_encoded`).
pub fn base64_encode(input: &str) -> (r: String)
    ensures
        r@ == kroki_encoded(input@),
{
    let bytes = input.as_bytes();
    let compressed = deflate_best(bytes);
    base64_url_no_pad(compressed.as_slice())
}

/// The URL that asks the Kroki service at `endpoint` for the SVG of a
/// diagram.
pub open spec fn kroki_url_of(endpoint: Seq<char>, kind: Seq<char>, body: Seq<char>) -> Seq<char> {
    endpoint + "/"@ + kind + "/svg/"@ + kroki_encoded(body)
}

/// Builds the request URL of a diagram (see `kroki_url_of`).
pub fn kroki_url(endpoint: &str, kind: &str, body: &str) -> (r: String)
    ensures
        r@ == kroki_url_of(endpoint@, kind@, body@),
{
    let mut r = String::new();
    r.append(endpoint);
    r.append("/");
    r.append(kind);
    r.append("/svg/");
    let e = base64_encode(body);
    r.append(e.as_str());
    r
}

/// The endpoint used when none is configured.
pub const DEFAULT_ENDPOINT: &'static str = "https://kroki.io";

// ───────────────────────── the chapter ─────────────────────────

/// A Kroki block: ```` ```kroki-TYPE ```` and the source up to the next
/// fence.
pub const KROKI_BLOCK: &'static str = "(?ms)```kroki-(?P<type>\\w+)\\s*\\n(?P<body>.*?)```";

/// The diagrams of a chapter, in order: (type, source).
pub open spec fn kroki_diagrams_of(content: Seq<char>) -> Seq<(Seq<char>, Seq<char>)> {
    regex_pieces(KROKI_BLOCK@, content).0.map_values(
        |p: (Seq<char>, Seq<Option<Seq<char>>>)| (group_text(p.1, 1), group_text(p.1, 2)),
    )
}

/// The views of (type, source) pairs.
pub open spec fn diagram_views(v: Seq<(String, String)>) -> Seq<(Seq<char>, Seq<char>)> {
    v.map_values(|x: (String, String)| (x.0@, x.1@))
}

/// The text of capture group `i`.
fn group_string(g: &Vec<Option<String>>, i: usize) -> (r: String)
    ensures
        r@ == group_text(groups_view(g@), i as int),
{
    if i < g.len() {
        match &g[i] {
            Some(t) => t.clone(),
            None => String::new(),
        }
    } else {
        String::new()
    }
}

/// The diagrams of a chapter, for the caller to render (see
/// `kroki_diagrams_of`).
pub fn kroki_diagrams(content: &str) -> (r: Vec<(String, String)>)
    ensures
        diagram_views(r@) == kroki_diagrams_of(content@),
{
    let (pieces, _tail) = regex_split(KROKI_BLOCK, content);
    let ghost pv = pieces_view(pieces@);
    let mut r: Vec<(String, String)> = Vec::new();
    let mut i: usize = 0;
    while i < pieces.len()
        invariant
            i <= pieces.len(),
            pv == pieces_view(pieces@),
            diagram_views(r@) == pv.take(i as int).map_values(
                |p: (Seq<char>, Seq<Option<Seq<char>>>)| (group_text(p.1, 1), group_text(p.1, 2)),
            ),
        decreases pieces.len() - i,
    {
        let t = group_string(&pieces[i].1, 1);
        let b = group_string(&pieces[i].1, 2);
        let ghost before = diagram_views(r@);
        r.push((t, b));
        assert(diagram_views(r@) =~= before.push((group_text(pv[i as int].1, 1), group_text(pv[i as int].1, 2))));
        assert(pv.take(i + 1) =~= pv.take(i as int).push(pv[i as int]));
        assert(pv.take(i + 1).map_values(|p: (Seq<char>, Seq<Option<Seq<char>>>)| (group_text(p.1, 1), group_text(p.1, 2)))
            =~= pv.take(i as int).map_values(|p: (Seq<char>, Seq<Option<Seq<char>>>)| (group_text(p.1, 1), group_text(p.1, 2))).push((group_text(pv[i as int].1, 1), group_text(pv[i as int].1, 2))));
        i = i + 1;
    }
    assert(pv.take(pieces@.len() as int) =~= pv);
    r
}

/// What a diagram becomes: the SVG Kroki returned, wrapped; or, when the
/// request failed, its source as code.
pub open spec fn kroki_html(kind: Seq<char>, body: Seq<char>, svg: Option<Seq<char>>) -> Seq<char> {
    match svg {
        Some(x) => "<div class=\"kroki-wrapper kroki-"@ + kind + "\">"@ + x + "</div>"@,
        None => "<pre><code class=\"language-kroki-"@ + kind + "\">"@ + body + "</code></pre>"@,
    }
}

/// The pieces put back together, the `k`-th diagram replaced using the
/// `k`-th answer.
pub open spec fn kroki_rebuilt(pieces: Seq<(Seq<char>, Seq<Option<Seq<char>>>)>, tail: Seq<char>, svgs: Seq<Option<Seq<char>>>) -> Seq<char>
    decreases pieces.len(),
{
    if pieces.len() == 0 {
        tail
    } else {
        pieces.first().0 + kroki_html(group_text(pieces.first().1, 1), group_text(pieces.first().1, 2), svgs[0])
            + kroki_rebuilt(pieces.drop_first(), tail, svgs.skip(1))
    }
}

/// A chapter with its diagrams replaced, `svgs` holding Kroki's answer for
/// each diagram of `kroki_diagrams_of` (none where the request failed).
pub open spec fn kroki_rendered(content: Seq<char>, svgs: Seq<Option<Seq<char>>>) -> Seq<char> {
    let (pieces, tail) = regex_pieces(KROKI_BLOCK@, content);
    kroki_rebuilt(pieces, tail, svgs)
}

/// Replaces each diagram of a chapter by what Kroki answered for it
/// (see `kroki_rendered`).
pub fn process_chapter(content: &str, svgs: &Vec<Option<String>>) -> (r: String)
    requires
        svgs.len() == kroki_diagrams_of(content@).len(),
    ensures
        r@ == kroki_rendered(content@, crate::renderers::office::opt_views(svgs@)),
{
    let (pieces, tail) = regex_split(KROKI_BLOCK, content);
    let ghost pv = pieces_view(pieces@);
    let ghost sv = crate::renderers::office::opt_views(svgs@);
    let mut out = String::new();
    let mut i: usize = 0;
    assert(pv.skip(0) =~= pv);
    assert(sv.skip(0) =~= sv);
    while i < pieces.len()
        invariant
            i <= pieces.len(),
            pieces.len() == svgs.len(),
            pv == pieces_view(pieces@),
            sv == crate::renderers::office::opt_views(svgs@),
            kroki_rebuilt(pv, tail@, sv) == out@ + kroki_rebuilt(pv.skip(i as int), tail@, sv.skip(i as int)),
        decreases pieces.len() - i,
    {
        out.append(pieces[i].0.as_str());
        let kind = group_string(&pieces[i].1, 1);
        let body = group_string(&pieces[i].1, 2);
        match &svgs[i] {
            Some(x) => {
                out.append("<div class=\"kroki-wrapper kroki-");
                out.append(kind.as_str());
                out.append("\">");
                out.append(x.as_str());
                out.append("</div>");
            },
            None => {
                out.append("<pre><code class=\"language-kroki-");
                out.append(kind.as_str());
                out.append("\">");
                out.append(body.as_str());
                out.append("</code></pre>");
            },
        }
        assert(pv.skip(i as int).drop_first() =~= pv.skip(i + 1));
        assert(sv.skip(i as int).skip(1) =~= sv.skip(i + 1));
        assert(sv.skip(i as int)[0] == sv[i as int]);
        i = i + 1;
    }
    out.append(tail.as_str());
    out
}

/// The preprocessor pass over a book: `answers[i]` holds Kroki's answer for
/// each diagram of chapter `i` (see `process_chapter`). Reading the book,
/// asking the service and writing the book back are left to the caller.
pub fn run(chapters: &[String], answers: &[Vec<Option<String>>]) -> (r: Vec<String>)
    requires
        answers.len() == chapters.len(),
        forall|i: int| 0 <= i < chapters.len() ==> (#[trigger] answers[i]).len() == kroki_diagrams_of(chapters[i]@).len(),
    ensures
        r.len() == chapters.len(),
        forall|i: int| 0 <= i < chapters.len() ==> #[trigger] r[i]@ == kroki_rendered(
            chapters[i]@,
            crate::renderers::office::opt_views(answers[i]@),
        ),
{
    let mut r: Vec<String> = Vec::new();
    let mut i: usize = 0;
    while i < chapters.len()
        invariant
            i <= chapters.len(),
            r.len() == i,
            answers.len() == chapters.len(),
            forall|k: int| 0 <= k < chapters.len() ==> (#[trigger] answers[k]).len() == kroki_diagrams_of(chapters[k]@).len(),
            forall|k: int| 0 <= k < i ==> #[trigger] r[k]@ == kroki_rendered(
                chapters[k]@,
                crate::renderers::office::opt_views(answers[k]@),
            ),
        decreases chapters.len() - i,
    {
        r.push(process_chapter(chapters[i].as_str(), &answers[i]));
        i = i + 1;
    }
    r
}

/// The entry the unified preprocessor calls: each diagram replaced by what
/// Kroki answered for it (see `kroki_rendered`).
pub fn process_content(content: &str, svgs: &Vec<Option<String>>) -> (r: String)
    requires
        svgs.len() == kroki_diagrams_of(content@).len(),
    ensures
        r@ == kroki_rendered(content@, crate::renderers::office::opt_views(svgs@)),
{
    process_chapter(content, svgs)
}

} // verus!
