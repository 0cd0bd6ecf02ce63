//! Fixed layout constants of the PLTX container format and the compression
//! tag set. All multi-byte fields in the format are little-endian.

use vstd::prelude::*;

verus! {

/// File magic, the ASCII bytes "PLTX".
pub const MAGIC: [u8; 4] = [0x50, 0x4C, 0x54, 0x58];

/// Chunk magic, the ASCII bytes "CHNK".
pub const CHUNK_MAGIC: [u8; 4] = [0x43, 0x48, 0x4E, 0x4B];

/// Index magic, the ASCII bytes "IDXT".
pub const INDEX_MAGIC: [u8; 4] = [0x49, 0x44, 0x58, 0x54];

/// Footer magic, the ASCII bytes "FTER".
pub const FOOTER_MAGIC: [u8; 4] = [0x46, 0x54, 0x45, 0x52];

/// One record on disk: binary64 timestamp followed by binary64 value.
pub const RECORD_SIZE: usize = 16;

/// Chunk header after the chunk magic:
/// signal_id(u32) record_count(u32) raw_length(u32) compressed_length(u32)
/// min_ts(binary64) max_ts(binary64).
pub const CHUNK_HEADER_SIZE: usize = 32;

/// File header prefix: magic(4) version(u8) compression(u8)
/// created(binary64) signal_count(u16).
pub const HEADER_PREFIX_SIZE: usize = 16;

/// Index entry: signal_id(u32) offset(u64) min_ts(binary64) max_ts(binary64).
pub const INDEX_ENTRY_SIZE: usize = 28;

/// Footer: magic(4) index_offset(u64).
pub const FOOTER_SIZE: usize = 12;

/// The compression tag set of the file header's `compression` byte.
#[derive(Debug, Clone, Copy, PartialEq, Eq, Structural)]
pub enum CompressionType {
    Uncompressed,
    Zlib,
    Lz4,
    Zstd,
}

impl CompressionType {
    /// Decodes the header's compression byte: 0 is `Uncompressed`, 1 is
    /// `Zlib`, 2 is `Lz4`, 3 is `Zstd`; every other value is unknown.
    pub fn from_u8(val: u8) -> (r: Option<Self>)
        ensures
            r == spec_compression_from_u8(val),
    {
        match val {
            0 => Some(CompressionType::Uncompressed),
            1 => Some(CompressionType::Zlib),
            2 => Some(CompressionType::Lz4),
            3 => Some(CompressionType::Zstd),
            _ => None,
        }
    }
}

/// The meaning of the header's compression byte.
pub open spec fn spec_compression_from_u8(val: u8) -> Option<CompressionType> {
    if val == 0 {
        Some(CompressionType::Uncompressed)
    } else if val == 1 {
        Some(CompressionType::Zlib)
    } else if val == 2 {
        Some(CompressionType::Lz4)
    } else if val == 3 {
        Some(CompressionType::Zstd)
    } else {
        None
    }
}

} // verus!
