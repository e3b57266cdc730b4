//! ZLIB over byte buffers: one call for a whole buffer, or a long-lived
//! stream that is fed chunk by chunk and flushed after each.

use vstd::prelude::*;
use std::io::{Read, Write};

verus! {

/// Why a buffer could not be deflated or inflated.
#[derive(Debug, Clone, Copy, PartialEq, Eq, Structural)]
pub enum CompressionError {
    /// The deflater failed.
    Deflate,
    /// The input is not a complete ZLIB stream.
    Inflate,
}

/// The ZLIB stream that `data` deflates to at the default level.
pub uninterp spec fn spec_zlib_compress(data: Seq<u8>) -> Option<Seq<u8>>;

/// The bytes that the ZLIB stream `data` inflates to.
pub uninterp spec fn spec_zlib_decompress(data: Seq<u8>) -> Option<Seq<u8>>;

/// `flate2::write::ZlibEncoder` at the default level, fed `bytes` and
/// finished: a ZLIB stream that inflates to `bytes`.
#[verifier::external_body]
fn zlib_encode(bytes: &[u8]) -> (res: Option<Vec<u8>>)
    ensures
        match res {
            Some(stream) => spec_zlib_compress(bytes@) == Some(stream@) && spec_zlib_decompress(
                stream@,
            ) == Some(bytes@),
            None => spec_zlib_compress(bytes@) is None,
        },
{
    let mut encoder = flate2::write::ZlibEncoder::new(Vec::new(), flate2::Compression::default());
    encoder.write_all(bytes).ok()?;
    encoder.finish().ok()
}

/// `flate2::bufread::ZlibDecoder` on `bytes`, read to its end.
#[verifier::external_body]
fn zlib_decode(bytes: &[u8]) -> (res: Option<Vec<u8>>)
    ensures
        match res {
            Some(plain) => spec_zlib_decompress(bytes@) == Some(plain@),
            None => spec_zlib_decompress(bytes@) is None,
        },
{
    let mut plain: Vec<u8> = Vec::new();
    let mut decoder = flate2::bufread::ZlibDecoder::new(bytes);
    decoder.read_to_end(&mut plain).ok()?;
    Some(plain)
}

/// Inflates a whole ZLIB stream.
pub fn decompress_zlib(bytes: &[u8]) -> (res: Result<Vec<u8>, CompressionError>)
    ensures
        match res {
            Ok(plain) => spec_zlib_decompress(bytes@) == Some(plain@),
            Err(e) => e == CompressionError::Inflate && spec_zlib_decompress(bytes@) is None,
        },
{
    match zlib_decode(bytes) {
        Some(plain) => Ok(plain),
        None => Err(CompressionError::Inflate),
    }
}

/// Deflates a whole buffer into a ZLIB stream, which [`decompress_zlib`]
/// turns back into the buffer.
pub fn compress_zlib(bytes: &[u8]) -> (res: Result<Vec<u8>, CompressionError>)
    ensures
        match res {
            Ok(stream) => spec_zlib_compress(bytes@) == Some(stream@) && spec_zlib_decompress(
                stream@,
            ) == Some(bytes@),
            Err(e) => e == CompressionError::Deflate && spec_zlib_compress(bytes@) is None,
        },
{
    match zlib_encode(bytes) {
        Some(stream) => Ok(stream),
        None => Err(CompressionError::Deflate),
    }
}

#[verifier::external_type_specification]
#[verifier::external_body]
pub struct ExCompress(flate2::Compress);

#[verifier::external_type_specification]
#[verifier::external_body]
pub struct ExDecompress(flate2::Decompress);

/// `flate2::Compress::new` at the default level, with a ZLIB header.
#[verifier::external_body]
pub(crate) fn new_deflater() -> flate2::Compress {
    flate2::Compress::new(flate2::Compression::default(), true)
}

/// `flate2::Decompress::new`, expecting a ZLIB header.
#[verifier::external_body]
pub(crate) fn new_inflater() -> flate2::Decompress {
    flate2::Decompress::new(true)
}

/// `flate2::Compress::compress_vec` with a sync flush, into a fresh
/// buffer with room for at least `room` bytes. What comes out depends on
/// all that the stream was fed before.
#[verifier::external_body]
pub(crate) fn deflate_chunk(deflater: &mut flate2::Compress, bytes: &[u8], room: usize) -> (res:
    Option<Vec<u8>>) {
    let mut output: Vec<u8> = Vec::with_capacity(room);
    deflater.compress_vec(bytes, &mut output, flate2::FlushCompress::Sync).ok()?;
    Some(output)
}

/// `flate2::Decompress::decompress_vec` with a sync flush, into a fresh
/// buffer with room for at least `room` bytes. What comes out depends on
/// all that the stream was fed before.
#[verifier::external_body]
pub(crate) fn inflate_chunk(inflater: &mut flate2::Decompress, bytes: &[u8], room: usize) -> (res:
    Option<Vec<u8>>) {
    let mut output: Vec<u8> = Vec::with_capacity(room);
    inflater.decompress_vec(bytes, &mut output, flate2::FlushDecompress::Sync).ok()?;
    Some(output)
}

} // verus!
