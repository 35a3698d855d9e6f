use vstd::prelude::*;
use std::io::Read;
use std::io::Write;
use flate2::Compression;
use flate2::read::ZlibDecoder;
use flate2::write::ZlibEncoder;
use crate::config::COMPRESSION_LEVEL;
use crate::pipeline::PipelineError;

verus! {

/// What zlib compression at the pipeline's fixed level returns for a
/// byte sequence; a function of the input bytes alone.
pub uninterp spec fn zlib_compressed(data: Seq<u8>) -> Seq<u8>;

/// Relies on flate2's `ZlibEncoder` writing into a `Vec<u8>`: the
/// compressed stream is a deterministic function of the input bytes and
/// the fixed level, and writing to a `Vec` never fails.
#[verifier::external_body]
pub fn compress_data(data: &[u8]) -> (r: Vec<u8>)
    ensures
        r@ == zlib_compressed(data@),
{
    let mut encoder = ZlibEncoder::new(Vec::new(), Compression::new(COMPRESSION_LEVEL));
    if encoder.write_all(data).is_err() {
        return Vec::new();
    }
    match encoder.finish() {
        Ok(v) => v,
        Err(_) => Vec::new(),
    }
}

/// Relies on flate2's `ZlibDecoder`: zlib compression is lossless, so
/// reading back a stream that [`compress_data`] produced yields exactly
/// the bytes that were compressed; any other stream may be rejected.
#[verifier::external_body]
fn zlib_decompress(data: &[u8]) -> (r: Option<Vec<u8>>)
    ensures
        forall|orig: Seq<u8>| data@ == #[trigger] zlib_compressed(orig)
            ==> r is Some && r.unwrap()@ == orig,
{
    let mut decoder = ZlibDecoder::new(data);
    let mut out = Vec::new();
    match decoder.read_to_end(&mut out) {
        Ok(_) => Some(out),
        Err(_) => None,
    }
}

/// Decompress a persisted artifact's payload. Exactly inverts
/// [`compress_data`]; a stream that did not come from it may be rejected
/// as a decompression failure.
pub fn decompress_data(compressed_data: &[u8]) -> (r: Result<Vec<u8>, PipelineError>)
    ensures
        forall|orig: Seq<u8>| compressed_data@ == #[trigger] zlib_compressed(orig)
            ==> r is Ok && r.unwrap()@ == orig,
        r is Err ==> r == Err::<Vec<u8>, PipelineError>(PipelineError::DecompressionFailed),
{
    match zlib_decompress(compressed_data) {
        Some(v) => Ok(v),
        None => Err(PipelineError::DecompressionFailed),
    }
}

} // verus!
