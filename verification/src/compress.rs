//! Compressed-size estimation through zlib. The estimate serves as the upper
//! bound a delta must stay within to be worth storing.

use vstd::prelude::*;

verus! {

/// The length of the zlib-compressed form of a byte string, at the default
/// compression level.
pub uninterp spec fn zlib_size_of(b: Seq<u8>) -> nat;

/// Relies on flate2's `ZlibEncoder` (`new`, `write_all`, `finish`) writing to
/// an in-memory buffer, which always succeeds: the compressed size at the
/// default level is a function of the input bytes alone.
#[verifier::external_body]
pub fn zlib_compressed_len(b: &Vec<u8>) -> (n: usize)
    ensures
        n == zlib_size_of(b@),
{
    let mut encoder = flate2::write::ZlibEncoder::new(
        Vec::new(),
        flate2::Compression::default(),
    );
    std::io::Write::write_all(&mut encoder, b.as_slice()).expect("in-memory write");
    encoder.finish().expect("in-memory write").len()
}

} // verus!
