//! In-memory data structures of the format: per-signal metadata, the file
//! header, chunk headers, index entries and query results. Timestamps and
//! values keep the binary64 bit patterns found on disk in `u64` fields.

use vstd::prelude::*;

verus! {

broadcast use vstd::std_specs::vec::group_vec_axioms;

/// Per-signal descriptive record. Every field may be empty; the format does
/// not guarantee that names are unique within a file.
#[derive(Debug, Clone)]
pub struct SignalMetadata {
    pub name: String,
    pub unit: String,
    pub description: String,
    pub source: String,
}

/// The mathematical content of a `SignalMetadata`: its four strings as
/// character sequences.
pub struct SignalMetadataView {
    pub name: Seq<char>,
    pub unit: Seq<char>,
    pub description: Seq<char>,
    pub source: Seq<char>,
}

impl View for SignalMetadata {
    type V = SignalMetadataView;

    open spec fn view(&self) -> SignalMetadataView {
        SignalMetadataView {
            name: self.name@,
            unit: self.unit@,
            description: self.description@,
            source: self.source@,
        }
    }
}

impl SignalMetadata {
    /// A record with the given name and all other fields empty.
    pub fn new(name: String) -> (r: Self)
        ensures
            r@.name == name@,
            r@.unit == Seq::<char>::empty(),
            r@.description == Seq::<char>::empty(),
            r@.source == Seq::<char>::empty(),
    {
        Self { name, unit: String::new(), description: String::new(), source: String::new() }
    }
}

/// File-wide preamble. `created` holds the binary64 bit pattern of the
/// creation time; the engine stores it opaquely. `signals` maps signal ids
/// to metadata, kept sorted by ascending id with one entry per id.
#[derive(Debug, Clone)]
pub struct FileHeader {
    pub version: u8,
    pub compression: u8,
    pub created: u64,
    pub signals: Vec<(u32, SignalMetadata)>,
}

/// The mathematical content of a `FileHeader`.
pub struct HeaderView {
    pub version: u8,
    pub compression: u8,
    pub created: u64,
    pub signals: Seq<(u32, SignalMetadataView)>,
}

/// The views of a signal table's rows.
pub open spec fn sig_views(v: Seq<(u32, SignalMetadata)>) -> Seq<(u32, SignalMetadataView)> {
    v.map(|i: int, p: (u32, SignalMetadata)| (p.0, p.1@))
}

impl View for FileHeader {
    type V = HeaderView;

    open spec fn view(&self) -> HeaderView {
        HeaderView {
            version: self.version,
            compression: self.compression,
            created: self.created,
            signals: sig_views(self.signals@),
        }
    }
}

/// One chunk's header as stored after the chunk magic. The trailing
/// `min_timestamp` and `max_timestamp` (binary64 bit patterns) are read but
/// unused by the engine; the index copy is authoritative for pruning.
#[derive(Debug, Clone, Copy, PartialEq, Eq, Structural)]
pub struct ChunkHeader {
    pub signal_id: u32,
    pub record_count: u32,
    pub raw_length: u32,
    pub compressed_length: u32,
    pub min_timestamp: u64,
    pub max_timestamp: u64,
}

/// One physical chunk's locator in the trailing index. `offset` is the
/// absolute file position of the chunk magic; the bounds are binary64 bit
/// patterns.
#[derive(Debug, Clone, Copy, PartialEq, Eq, Structural)]
pub struct IndexEntry {
    pub signal_id: u32,
    pub offset: u64,
    pub min_timestamp: u64,
    pub max_timestamp: u64,
}

/// A query result: two parallel arrays of binary64 bit patterns, one of
/// timestamps and one of values, always of equal length.
#[derive(Debug, Clone)]
pub struct TimeseriesChunk {
    pub timestamps: Vec<u64>,
    pub values: Vec<u64>,
}

impl View for TimeseriesChunk {
    type V = Seq<(u64, u64)>;

    /// The records of the chunk, as (timestamp, value) bit-pattern pairs.
    open spec fn view(&self) -> Seq<(u64, u64)> {
        Seq::new(self.timestamps@.len(), |i: int| (self.timestamps@[i], self.values@[i]))
    }
}

impl TimeseriesChunk {
    /// Length coupling: the two arrays hold one entry per record each.
    pub open spec fn wf(&self) -> bool {
        self.timestamps@.len() == self.values@.len()
    }

    /// An empty result.
    pub fn new() -> (r: Self)
        ensures
            r.wf(),
            r@ == Seq::<(u64, u64)>::empty(),
            r.timestamps@ == Seq::<u64>::empty(),
            r.values@ == Seq::<u64>::empty(),
    {
        let r = Self { timestamps: Vec::new(), values: Vec::new() };
        proof {
            assert(r@ =~= Seq::<(u64, u64)>::empty());
        }
        r
    }

    /// An empty result with room for `cap` records.
    pub fn with_capacity(cap: usize) -> (r: Self)
        ensures
            r.wf(),
            r@ == Seq::<(u64, u64)>::empty(),
            r.timestamps@ == Seq::<u64>::empty(),
            r.values@ == Seq::<u64>::empty(),
    {
        let r = Self { timestamps: Vec::with_capacity(cap), values: Vec::with_capacity(cap) };
        proof {
            assert(r@ =~= Seq::<(u64, u64)>::empty());
        }
        r
    }

    /// The number of records.
    pub fn len(&self) -> (r: usize)
        ensures
            r == self@.len(),
    {
        self.timestamps.len()
    }

    /// Whether the chunk holds no records.
    pub fn is_empty(&self) -> (r: bool)
        ensures
            r == (self@.len() == 0),
    {
        self.timestamps.is_empty()
    }
}

} // verus!
