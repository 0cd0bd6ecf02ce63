//! Decompression dispatch over the compression tag set. The three codecs are
//! outside crates; each is reached through one trusted wrapper whose result
//! is named by an uninterpreted spec function, since a codec's output is a
//! function of its input bytes alone.

use vstd::prelude::*;

use crate::constants::CompressionType;
use crate::error::PltxError;

verus! {

/// What decoding a complete zlib stream yields, if it decodes at all.
pub uninterp spec fn zlib_inflate(s: Seq<u8>) -> Option<Seq<u8>>;

/// What LZ4 block decoding (with the little-endian length prefix) yields,
/// if it decodes at all.
pub uninterp spec fn lz4_block_decode(s: Seq<u8>) -> Option<Seq<u8>>;

/// What zstd decoding yields, if it decodes at all.
pub uninterp spec fn zstd_decode(s: Seq<u8>) -> Option<Seq<u8>>;

/// What `decompress` returns for each compression tag: the identity for
/// uncompressed data, and the named codec result otherwise.
pub open spec fn spec_decompress(s: Seq<u8>, c: CompressionType) -> Option<Seq<u8>> {
    match c {
        CompressionType::Uncompressed => Some(s),
        CompressionType::Zlib => zlib_inflate(s),
        CompressionType::Lz4 => lz4_block_decode(s),
        CompressionType::Zstd => zstd_decode(s),
    }
}

/// Relies on `flate2::read::ZlibDecoder` driven by `std::io::Read::read_to_end`:
/// it decodes a complete zlib stream, failing on truncation or checksum
/// mismatch, and the outcome depends on the input bytes alone.
#[verifier::external_body]
fn zlib_decompress(data: &Vec<u8>) -> (r: Result<Vec<u8>, String>)
    ensures
        r is Ok <==> zlib_inflate(data@) is Some,
        r is Ok ==> r->Ok_0@ == zlib_inflate(data@)->Some_0,
{
    let mut decoder = flate2::read::ZlibDecoder::new(data.as_slice());
    let mut decompressed = Vec::new();
    match std::io::Read::read_to_end(&mut decoder, &mut decompressed) {
        Ok(_) => Ok(decompressed),
        Err(e) => Err(format!("Zlib: {}", e)),
    }
}

/// Relies on `lz4::block::decompress` with no size argument: it reads the
/// little-endian length prefix and decodes the LZ4 block after it, and the
/// outcome depends on the input bytes alone.
#[verifier::external_body]
fn lz4_decompress(data: &Vec<u8>) -> (r: Result<Vec<u8>, String>)
    ensures
        r is Ok <==> lz4_block_decode(data@) is Some,
        r is Ok ==> r->Ok_0@ == lz4_block_decode(data@)->Some_0,
{
    match lz4::block::decompress(data.as_slice(), None) {
        Ok(v) => Ok(v),
        Err(e) => Err(format!("LZ4: {}", e)),
    }
}

/// Relies on `zstd::decode_all`: it decodes a complete zstd stream, and the
/// outcome depends on the input bytes alone.
#[verifier::external_body]
fn zstd_decompress(data: &Vec<u8>) -> (r: Result<Vec<u8>, String>)
    ensures
        r is Ok <==> zstd_decode(data@) is Some,
        r is Ok ==> r->Ok_0@ == zstd_decode(data@)->Some_0,
{
    match zstd::decode_all(data.as_slice()) {
        Ok(v) => Ok(v),
        Err(e) => Err(format!("Zstd: {}", e)),
    }
}

/// Decompresses one chunk payload under the file-level compression tag.
/// Succeeds exactly when the codec accepts the bytes; an uncompressed
/// payload is copied unchanged.
pub fn decompress(data: &Vec<u8>, compression: CompressionType) -> (r: Result<
    Vec<u8>,
    PltxError,
>)
    ensures
        r is Ok <==> spec_decompress(data@, compression) is Some,
        r is Ok ==> r->Ok_0@ == spec_decompress(data@, compression)->Some_0,
        r is Err ==> r->Err_0 is DecompressionFailed,
{
    match compression {
        CompressionType::Uncompressed => Ok(vstd::slice::slice_to_vec(data.as_slice())),
        CompressionType::Zlib => match zlib_decompress(data) {
            Ok(v) => Ok(v),
            Err(m) => Err(PltxError::DecompressionFailed(m)),
        },
        CompressionType::Lz4 => match lz4_decompress(data) {
            Ok(v) => Ok(v),
            Err(m) => Err(PltxError::DecompressionFailed(m)),
        },
        CompressionType::Zstd => match zstd_decompress(data) {
            Ok(v) => Ok(v),
            Err(m) => Err(PltxError::DecompressionFailed(m)),
        },
    }
}

} // verus!
