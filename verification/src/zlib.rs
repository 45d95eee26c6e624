use vstd::prelude::*;

use std::io::Read;
use std::io::Write;

verus! {

/// The zlib stream that flate2 produces for a byte sequence at the
/// default compression level. Left unspecified: only flate2 computes
/// it, and the library never restates the deflate format.
pub uninterp spec fn zlib_deflate(data: Seq<u8>) -> Seq<u8>;

/// Relies on flate2's `write::ZlibEncoder`: at a fixed level the
/// compressed stream is a function of the input bytes alone, and
/// writing into an in-memory buffer cannot fail.
#[verifier::external_body]
pub(crate) fn zlib_compress(data: &[u8]) -> (r: Vec<u8>)
    ensures
        r@ == zlib_deflate(data@),
{
    let mut enc = flate2::write::ZlibEncoder::new(Vec::new(), flate2::Compression::default());
    enc.write_all(data).unwrap();
    enc.finish().unwrap()
}

/// Relies on flate2's `read::ZlibDecoder`: decompression exactly
/// inverts compression, so a stream that flate2 produced for some
/// input decodes back to that input. Of any other stream nothing is
/// promised: the decoder may fail, or may return bytes.
#[verifier::external_body]
pub(crate) fn zlib_decompress(data: &[u8]) -> (r: Option<Vec<u8>>)
    ensures
        match r {
            Some(v) => forall|b: Seq<u8>| #[trigger] zlib_deflate(b) == data@ ==> v@ == b,
            None => forall|b: Seq<u8>| #[trigger] zlib_deflate(b) != data@,
        },
{
    let mut dec = flate2::read::ZlibDecoder::new(data);
    let mut out = Vec::new();
    match dec.read_to_end(&mut out) {
        Ok(_) => Some(out),
        Err(_) => None,
    }
}

} // verus!
