//! Text-safe encoding of binary values for display and persistence.

use vstd::prelude::*;

verus! {

/// The standard base64 encoding (with padding) of a byte string.
pub uninterp spec fn base64_of(s: Seq<u8>) -> Seq<char>;

/// Relies on base64's `STANDARD` engine: the encoding is a function of
/// the input bytes alone, four output characters for every three input
/// bytes (the last group padded).
#[verifier::external_body]
pub(crate) fn base64_encode(b: &[u8]) -> (r: String)
    requires
        b@.len() < usize::MAX / 2,
    ensures
        r@ == base64_of(b@),
        r@.len() == 4 * ((b@.len() + 2) / 3),
{
    base64::Engine::encode(&base64::engine::general_purpose::STANDARD, b)
}

} // verus!
