//! Reader library for the PLTX time-series container format.
//!
//! A PLTX file stores named numeric signals as chunked, optionally compressed
//! arrays of (timestamp, value) records, followed by an index that allows
//! per-signal random access and time-range pruning. This crate parses the
//! format from an in-memory byte buffer and exposes whole-signal, per-chunk
//! and time-range queries. Timestamps and values are carried as the IEEE-754
//! binary64 bit patterns found on disk, stored in `u64` fields.

pub mod bytes;
pub mod compression;
pub mod constants;
pub mod error;
pub mod format;
pub mod laws;
pub mod messages;
pub mod parse;
pub mod reader;
pub mod ts_order;

pub use crate::constants::CompressionType;
pub use crate::error::PltxError;
pub use crate::format::{ChunkHeader, FileHeader, IndexEntry, SignalMetadata, TimeseriesChunk};
pub use crate::reader::PltxReader;
