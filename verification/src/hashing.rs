//! Content hashes, used as cache keys for compiled diagrams.
use vstd::prelude::*;
use sha2::Digest;

verus! {

broadcast use vstd::string::group_string_axioms;

/// The SHA-256 digest of the UTF-8 bytes of `text`.
pub uninterp spec fn sha256_of(text: Seq<char>) -> Seq<u8>;

/// `sha2::Sha256::digest` of the UTF-8 bytes of `text`: the digest, 32
/// bytes long.
#[verifier::external_body]
fn sha256_bytes(text: &str) -> (r: Vec<u8>)
    ensures
        r@ == sha256_of(text@),
        r@.len() == 32,
{
    sha2::Sha256::digest(text.as_bytes()).to_vec()
}

/// The lower-case hexadecimal digit of `n` (below 16).
pub open spec fn hex_digit(n: int) -> char {
    if n < 10 {
        (48 + n) as char
    } else {
        (87 + n) as char
    }
}

/// Bytes written as lower-case hexadecimal, two digits each.
pub open spec fn lower_hex(bytes: Seq<u8>) -> Seq<char>
    decreases bytes.len(),
{
    if bytes.len() == 0 {
        seq![]
    } else {
        let b = bytes.last();
        lower_hex(bytes.drop_last()) + seq![hex_digit((b / 16) as int), hex_digit((b % 16) as int)]
    }
}

proof fn lemma_lower_hex_len(bytes: Seq<u8>)
    ensures
        lower_hex(bytes).len() == 2 * bytes.len(),
    decreases bytes.len(),
{
    if bytes.len() > 0 {
        lemma_lower_hex_len(bytes.drop_last());
    }
}

/// The digit of `n`, computed.
pub fn hex_digit_exec(n: u8) -> (c: char)
    requires
        n < 16,
    ensures
        c == hex_digit(n as int),
{
    if n < 10 {
        (48u8 + n) as char
    } else {
        (87u8 + n) as char
    }
}

/// The SHA-256 digest of a text in lower-case hexadecimal (64 digits).
pub fn content_hash(content: &str) -> (r: String)
    ensures
        r@ == lower_hex(sha256_of(content@)),
        r@.len() == 64,
{
    let d = sha256_bytes(content);
    let mut r = String::new();
    let mut i: usize = 0;
    while i < d.len()
        invariant
            i <= d.len(),
            r@ == lower_hex(d@.take(i as int)),
        decreases d.len() - i,
    {
        assert(d@.take(i + 1).drop_last() =~= d@.take(i as int));
        let b = d[i];
        crate::text::push_char(&mut r, hex_digit_exec(b / 16));
        crate::text::push_char(&mut r, hex_digit_exec(b % 16));
        i = i + 1;
    }
    assert(d@.take(d.len() as int) =~= d@);
    proof {
        lemma_lower_hex_len(d@);
    }
    r
}

} // verus!
