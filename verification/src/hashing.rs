//! Content addressing. A stored value's key is the digest of its bytes, so
//! equal content always lands under an equal key.

use vstd::prelude::*;

verus! {

/// The 32-byte digest of a byte string.
pub uninterp spec fn digest_of(b: Seq<u8>) -> Seq<u8>;

/// Relies on blake2's `Blake2s256` one-shot `digest`: a 256-bit hash that
/// depends on the input bytes alone.
#[verifier::external_body]
pub fn content_digest(b: &Vec<u8>) -> (r: Vec<u8>)
    ensures
        r@ == digest_of(b@),
        r@.len() == 32,
{
    <blake2::Blake2s256 as blake2::Digest>::digest(b.as_slice()).to_vec()
}

} // verus!
