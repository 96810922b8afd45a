//! Per-frame compression, through flate2's zlib streams.
//!
//! Every frame is compressed independently: no state is carried from one
//! frame to the next, so each record of the container can be decoded on
//! its own.

use vstd::prelude::*;

verus! {

use std::io::Read;
use std::io::Write;

/// The zlib encoding of a byte sequence at flate2's default compression
/// level.  The bit layout of a DEFLATE stream is not this library's
/// business, so the result is only named; callers rely on `unzlib_of`
/// undoing it.
pub uninterp spec fn zlib_of(data: Seq<u8>) -> Seq<u8>;

/// What zlib decompression yields on a byte sequence: `None` where the
/// bytes are not a well-formed zlib stream.
pub uninterp spec fn unzlib_of(data: Seq<u8>) -> Option<Seq<u8>>;

/// Relies on flate2's `write::ZlibEncoder`: compression into an in-memory
/// sink cannot fail, is a deterministic function of the input bytes, and
/// produces a stream that decompresses back to the input.
#[verifier::external_body]
pub(crate) fn zlib_compress(data: &[u8]) -> (r: Vec<u8>)
    ensures
        r@ == zlib_of(data@),
        unzlib_of(r@) == Some(data@),
{
    let mut encoder = flate2::write::ZlibEncoder::new(Vec::new(), flate2::Compression::default());
    encoder.write_all(data).expect("writing to a Vec sink cannot fail");
    encoder.finish().expect("finishing an in-memory zlib stream cannot fail")
}

/// Relies on flate2's `read::ZlibDecoder`: decompression is a
/// deterministic function of the input bytes and fails exactly on
/// malformed streams.
#[verifier::external_body]
pub(crate) fn zlib_decompress(data: &[u8], size_hint: usize) -> (r: Result<Vec<u8>, ()>)
    ensures
        r matches Ok(v) ==> unzlib_of(data@) == Some(v@),
        r is Err ==> unzlib_of(data@) is None,
{
    let mut decoder = flate2::read::ZlibDecoder::new(data);
    let mut out = Vec::with_capacity(size_hint);
    match decoder.read_to_end(&mut out) {
        Ok(_) => Ok(out),
        Err(_) => Err(()),
    }
}

} // verus!
