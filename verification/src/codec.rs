//! Trusted boundary to the outside codec crates.
//!
//! Base64 text decoding and zlib/gzip decompression are functions of their
//! input bytes alone, but their full definitions are far too large to state
//! here; each gets an uninterpreted name, and a thin wrapper whose contract
//! ties the call's outcome to that name. The encoding directions promise only
//! the documented round trip: decoding what they produce gives the input back.

use vstd::prelude::*;

use crate::text::is_space_byte;
use std::io::Read;

verus! {

/// What base64 decoding (standard alphabet, `=` padding, no whitespace
/// accepted) yields on the given bytes: the decoded payload, or nothing when
/// the input is not valid base64.
pub uninterp spec fn b64_decode_spec(s: Seq<u8>) -> Option<Seq<u8>>;

/// What zlib decompression yields on the given bytes: the decompressed
/// payload, or nothing when the input is not a well-formed zlib stream.
pub uninterp spec fn zlib_decompress_spec(s: Seq<u8>) -> Option<Seq<u8>>;

/// What gzip decompression yields on the given bytes: the decompressed
/// payload, or nothing when the input is not a well-formed gzip container.
pub uninterp spec fn gzip_decompress_spec(s: Seq<u8>) -> Option<Seq<u8>>;

/// Relies on `base64::decode`: standard-alphabet base64 decoding, a pure
/// function of the input bytes, failing exactly on invalid symbols or padding.
#[verifier::external_body]
pub(crate) fn b64_decode(s: &[u8]) -> (r: Option<Vec<u8>>)
    ensures
        match r {
            Some(v) => b64_decode_spec(s@) == Some(v@),
            None => b64_decode_spec(s@) is None,
        },
{
    match base64::decode(s) {
        Ok(v) => Some(v),
        Err(_) => None,
    }
}

/// Relies on `base64::encode` producing standard-alphabet base64 (alphabet
/// characters and `=` only, so no whitespace) that `base64::decode` decodes
/// back to the input.
#[verifier::external_body]
pub(crate) fn b64_encode(s: &[u8]) -> (r: Vec<u8>)
    ensures
        b64_decode_spec(r@) == Some(s@),
        forall|i: int| 0 <= i < r@.len() ==> !is_space_byte(#[trigger] r@[i]),
{
    base64::encode(s).into_bytes()
}

/// Relies on `flate2::read::ZlibDecoder` driven by `std::io::Read::read_to_end`:
/// zlib decompression, a pure function of the compressed bytes, failing
/// exactly on a malformed stream.
#[verifier::external_body]
pub(crate) fn zlib_decompress(s: &[u8]) -> (r: Option<Vec<u8>>)
    ensures
        match r {
            Some(v) => zlib_decompress_spec(s@) == Some(v@),
            None => zlib_decompress_spec(s@) is None,
        },
{
    let mut decoder = flate2::read::ZlibDecoder::new(s);
    let mut out: Vec<u8> = Vec::new();
    match decoder.read_to_end(&mut out) {
        Ok(_) => Some(out),
        Err(_) => None,
    }
}

/// Relies on `flate2::read::ZlibEncoder`: decompressing its output returns
/// the input (the documented zlib round trip). Reading from an in-memory
/// slice cannot fail.
#[verifier::external_body]
pub(crate) fn zlib_compress(s: &[u8]) -> (r: Vec<u8>)
    ensures
        zlib_decompress_spec(r@) == Some(s@),
{
    let mut encoder = flate2::read::ZlibEncoder::new(s, flate2::Compression::default());
    let mut out: Vec<u8> = Vec::new();
    encoder.read_to_end(&mut out).expect("compressing from a slice cannot fail");
    out
}

/// Relies on `flate2::read::GzDecoder` driven by `std::io::Read::read_to_end`:
/// gzip decompression, a pure function of the compressed bytes, failing
/// exactly on a malformed container.
#[verifier::external_body]
pub(crate) fn gzip_decompress(s: &[u8]) -> (r: Option<Vec<u8>>)
    ensures
        match r {
            Some(v) => gzip_decompress_spec(s@) == Some(v@),
            None => gzip_decompress_spec(s@) is None,
        },
{
    let mut decoder = flate2::read::GzDecoder::new(s);
    let mut out: Vec<u8> = Vec::new();
    match decoder.read_to_end(&mut out) {
        Ok(_) => Some(out),
        Err(_) => None,
    }
}

/// Relies on `flate2::read::GzEncoder`: decompressing its output returns the
/// input (the documented gzip round trip). Reading from an in-memory slice
/// cannot fail.
#[verifier::external_body]
pub(crate) fn gzip_compress(s: &[u8]) -> (r: Vec<u8>)
    ensures
        gzip_decompress_spec(r@) == Some(s@),
{
    let mut encoder = flate2::read::GzEncoder::new(s, flate2::Compression::default());
    let mut out: Vec<u8> = Vec::new();
    encoder.read_to_end(&mut out).expect("compressing from a slice cannot fail");
    out
}

} // verus!
