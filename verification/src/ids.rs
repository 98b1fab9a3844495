//! Random identifiers, for elements and placeholders that must not clash.
use vstd::prelude::*;

verus! {

/// A lower-case hexadecimal digit.
pub open spec fn lower_hex_digit(c: char) -> bool {
    ('0' <= c <= '9') || ('a' <= c <= 'f')
}

/// A fresh random UUID (`uuid::Uuid::new_v4`) in its simple form: 32
/// lower-case hexadecimal digits. Which ones is chance, so no two calls are
/// promised to agree.
#[verifier::external_body]
pub fn fresh_uuid_hex() -> (r: String)
    ensures
        r@.len() == 32,
        forall|i: int| 0 <= i < r@.len() ==> lower_hex_digit(#[trigger] r@[i]),
{
    uuid::Uuid::new_v4().simple().to_string()
}

} // verus!
