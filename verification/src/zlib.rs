//! Inflation of zlib streams.

use vstd::prelude::*;

verus! {

/// What the zlib decoder of `flate2` reads out of `data` up to the end of the
/// first stream in it: the inflated bytes, or `None` where the decoder
/// reports an error.
pub uninterp spec fn zlib_inflated(data: Seq<u8>) -> Option<Seq<u8>>;

/// The view of optional bytes.
pub open spec fn opt_bytes(v: Option<Vec<u8>>) -> Option<Seq<u8>> {
    match v {
        Some(b) => Some(b@),
        None => None,
    }
}

/// Runs `flate2::read::ZlibDecoder` over `data` with `read_to_end`.
///
/// Trusted: the contract only names the outcome. It claims that the decoder's
/// verdict and output depend on the input bytes alone.
#[verifier::external_body]
pub(crate) fn inflate(data: &[u8]) -> (r: Option<Vec<u8>>)
    ensures
        opt_bytes(r) == zlib_inflated(data@),
{
    let mut buf: Vec<u8> = Vec::new();
    let mut decoder = flate2::read::ZlibDecoder::new(data);
    match std::io::Read::read_to_end(&mut decoder, &mut buf) {
        Ok(_) => Some(buf),
        Err(_) => None,
    }
}

/// Inflates the zlib stream that `data` starts with.
pub fn unpack(data: &[u8]) -> (r: Option<Vec<u8>>)
    ensures
        opt_bytes(r) == zlib_inflated(data@),
{
    inflate(data)
}

} // verus!
