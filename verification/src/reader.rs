//! The reader handle: opening a file image and running the whole-signal,
//! per-chunk and time-range queries against it.

use vstd::prelude::*;

use crate::bytes::{copy_range, magic_matches, read_u32, read_u64, u32_at, u64_at};
use crate::compression::{decompress, spec_decompress};
use crate::constants::{spec_compression_from_u8, CompressionType, CHUNK_MAGIC};
use crate::error::{spec_dec, u32_to_decimal, PltxError};
use crate::format::{FileHeader, HeaderView, IndexEntry, SignalMetadata, TimeseriesChunk};
use crate::parse::{assoc_get, assoc_has, read_footer_and_index, read_header, sig_ids_sorted,
    spec_open, OpenOutcome};
use crate::ts_order::{le_bits, lt_bits, ts_le, ts_lt};

verus! {

broadcast use vstd::std_specs::vec::group_vec_axioms;

/// Relies on the standard `format!` macro to render the two byte counts of a
/// length mismatch into a diagnostic message.
#[verifier::external_body]
fn fmt_length_mismatch(expected: u32, got: usize) -> String {
    format!("Expected {} bytes, got {}", expected, got)
}

/// Relies on the standard `format!` macro to render the two inconsistent
/// header fields of a chunk into a diagnostic message.
#[verifier::external_body]
fn fmt_count_mismatch(record_count: u32, raw_length: u32) -> String {
    format!("record count {} times 16 does not match raw length {}", record_count, raw_length)
}

/// Outcome of reading the chunk stored at one offset.
pub enum ChunkOutcome {
    /// The records of the chunk, as (timestamp, value) bit-pattern pairs.
    Records(Seq<(u64, u64)>),
    /// The chunk magic or header extends past the end of the image.
    Short,
    /// The four bytes at the offset are not the chunk magic.
    BadChunkMagic,
    /// The declared compressed length runs past the end of the image.
    Oversize,
    /// The codec rejected the payload bytes.
    DecompressFailed,
    /// The decompressed payload length differs from the declared raw length.
    LengthMismatch(int, int),
    /// The declared record count times the record size differs from the
    /// declared raw length.
    CountMismatch(int, int),
}

/// The chunk stored at `off`: chunk magic, 32-byte chunk header, then the
/// compressed payload, decompressed under the tag `c` and split into
/// 16-byte records.
pub open spec fn spec_chunk(d: Seq<u8>, off: int, c: CompressionType) -> ChunkOutcome {
    if off + 4 > d.len() {
        ChunkOutcome::Short
    } else if d.subrange(off, off + 4) != CHUNK_MAGIC@ {
        ChunkOutcome::BadChunkMagic
    } else if off + 36 > d.len() {
        ChunkOutcome::Short
    } else {
        let record_count = u32_at(d, off + 8) as int;
        let raw_length = u32_at(d, off + 12) as int;
        let comp_length = u32_at(d, off + 16) as int;
        if off + 36 + comp_length > d.len() {
            ChunkOutcome::Oversize
        } else {
            match spec_decompress(d.subrange(off + 36, off + 36 + comp_length), c) {
                None => ChunkOutcome::DecompressFailed,
                Some(raw) => if raw.len() != raw_length {
                    ChunkOutcome::LengthMismatch(raw_length, raw.len() as int)
                } else if record_count * 16 != raw_length {
                    ChunkOutcome::CountMismatch(record_count, raw_length)
                } else {
                    ChunkOutcome::Records(
                        Seq::new(
                            record_count as nat,
                            |i: int| (u64_at(raw, 16 * i) as u64, u64_at(raw, 16 * i + 8) as u64),
                        ),
                    )
                },
            }
        }
    }
}

/// How a failed chunk read maps onto the error type.
pub open spec fn chunk_fail_matches(f: ChunkOutcome, e: PltxError) -> bool {
    match f {
        ChunkOutcome::Records(_) => false,
        ChunkOutcome::Short => e is Io,
        ChunkOutcome::BadChunkMagic => e is CorruptedData,
        ChunkOutcome::Oversize => e is CorruptedData,
        ChunkOutcome::DecompressFailed => e is DecompressionFailed,
        ChunkOutcome::LengthMismatch(_, _) => e is CorruptedData,
        ChunkOutcome::CountMismatch(_, _) => e is CorruptedData,
    }
}

/// How a chunk read result corresponds to its spec outcome.
pub open spec fn chunk_result_matches(
    d: Seq<u8>,
    off: int,
    c: CompressionType,
    r: Result<TimeseriesChunk, PltxError>,
) -> bool {
    match spec_chunk(d, off, c) {
        ChunkOutcome::Records(rs) => r is Ok && r->Ok_0@ == rs && r->Ok_0.wf(),
        f => r is Err && chunk_fail_matches(f, r->Err_0),
    }
}

/// Reads the chunk stored at `offset`: verifies the chunk magic, reads the
/// chunk header, bounds and decompresses the payload, verifies that the
/// decompressed length equals the declared raw length and that the declared
/// record count times the record size equals that raw length, then splits
/// the payload into parallel timestamp and value arrays.
fn read_chunk_at(d: &Vec<u8>, offset: u64, compression: CompressionType) -> (r: Result<
    TimeseriesChunk,
    PltxError,
>)
    ensures
        chunk_result_matches(d@, offset as int, compression, r),
{
    let len = d.len();
    let len64 = len as u64;
    if len64 < 4 || offset > len64 - 4 {
        return Err(PltxError::Io("short read in chunk magic".to_owned()));
    }
    let off = offset as usize;
    if !magic_matches(d, off, &CHUNK_MAGIC) {
        return Err(PltxError::CorruptedData("Invalid chunk magic".to_owned()));
    }
    if len - off < 36 {
        return Err(PltxError::Io("short read in chunk header".to_owned()));
    }
    let record_count = read_u32(d, off + 8);
    let raw_length = read_u32(d, off + 12);
    let compressed_length = read_u32(d, off + 16);
    if (compressed_length as u64) > len64 - (off as u64 + 36) {
        return Err(PltxError::CorruptedData("chunk payload runs past end of file".to_owned()));
    }
    let comp = copy_range(d, off + 36, compressed_length as usize);
    let raw = match decompress(&comp, compression) {
        Ok(v) => v,
        Err(e) => {
            return Err(e);
        },
    };
    if raw.len() != raw_length as usize {
        return Err(PltxError::CorruptedData(fmt_length_mismatch(raw_length, raw.len())));
    }
    if (record_count as u64) * 16 != raw_length as u64 {
        return Err(PltxError::CorruptedData(fmt_count_mismatch(record_count, raw_length)));
    }
    let n = record_count as usize;
    let ghost recs = Seq::new(
        n as nat,
        |i: int| (u64_at(raw@, 16 * i) as u64, u64_at(raw@, 16 * i + 8) as u64),
    );
    let mut chunk = TimeseriesChunk::with_capacity(n);
    let mut i: usize = 0;
    while i < n
        invariant
            i <= n,
            raw@.len() == n * 16,
            chunk.timestamps@.len() == i,
            chunk.values@.len() == i,
            forall|j: int| 0 <= j < i ==> chunk.timestamps@[j] == u64_at(raw@, 16 * j) as u64,
            forall|j: int| 0 <= j < i ==> chunk.values@[j] == u64_at(raw@, 16 * j + 8) as u64,
        decreases n - i,
    {
        let ts = read_u64(&raw, i * 16);
        let v = read_u64(&raw, i * 16 + 8);
        chunk.timestamps.push(ts);
        chunk.values.push(v);
        i = i + 1;
    }
    proof {
        assert(chunk@ =~= recs);
    }
    Ok(chunk)
}

/// An opened file image: the source path kept for diagnostics, the raw
/// bytes, the parsed header and the loaded index. None of the fields mutate
/// after `open`; queries borrow the reader shared, so any number of
/// concurrent consumers may hold it, and each query's result is a function
/// of this immutable state alone.
#[derive(Debug)]
pub struct PltxReader {
    pub path: String,
    pub data: Vec<u8>,
    pub header: FileHeader,
    pub index: Vec<IndexEntry>,
}

/// The mathematical content of a reader.
pub struct ReaderView {
    pub path: Seq<char>,
    pub data: Seq<u8>,
    pub header: HeaderView,
    pub index: Seq<IndexEntry>,
}

impl View for PltxReader {
    type V = ReaderView;

    open spec fn view(&self) -> ReaderView {
        ReaderView {
            path: self.path@,
            data: self.data@,
            header: self.header@,
            index: self.index@,
        }
    }
}

/// How the result of `open` corresponds to the spec-level outcome of
/// parsing the image.
pub open spec fn open_result_matches(
    path: Seq<char>,
    d: Seq<u8>,
    r: Result<PltxReader, PltxError>,
) -> bool {
    match spec_open(d) {
        OpenOutcome::Opened(h, es) => r is Ok && r->Ok_0@ == (ReaderView {
            path,
            data: d,
            header: h,
            index: es,
        }),
        OpenOutcome::Short => r is Err && r->Err_0 is Io,
        OpenOutcome::Oversize => r is Err && r->Err_0 is CorruptedData,
        OpenOutcome::BadUtf8 => r is Err && r->Err_0 == PltxError::InvalidUtf8,
        OpenOutcome::BadFileMagic(g) => r is Err && (r->Err_0 matches PltxError::InvalidMagic {
            expected,
            got,
        } && expected@ == crate::constants::MAGIC@ && got@ == g),
        OpenOutcome::BadFooterMagic(g) => r is Err && (r->Err_0 matches PltxError::InvalidMagic {
            expected,
            got,
        } && expected@ == crate::constants::FOOTER_MAGIC@ && got@ == g),
        OpenOutcome::BadIndexMagic(g) => r is Err && (r->Err_0 matches PltxError::InvalidMagic {
            expected,
            got,
        } && expected@ == crate::constants::INDEX_MAGIC@ && got@ == g),
    }
}

/// The signal table of a well-formed reader is sorted by strictly ascending
/// signal id.
impl PltxReader {
    pub open spec fn wf(&self) -> bool {
        sig_ids_sorted(self@.header.signals)
    }

    /// Opens a file image: parses the header, then the footer and the
    /// index. On success the whole image is retained for chunk reads; on
    /// failure no reader is produced.
    pub fn open(path: String, data: Vec<u8>) -> (r: Result<Self, PltxError>)
        ensures
            open_result_matches(path@, data@, r),
            r is Ok ==> r->Ok_0.wf(),
    {
        let header = read_header(&data)?;
        let index = read_footer_and_index(&data)?;
        Ok(Self { path, data, header, index })
    }

    /// Lists the signals as (id, name) pairs, in the table's order: one
    /// entry per id, ascending by id for a reader produced by `open`.
    pub fn list_signals(&self) -> (r: Vec<(u32, String)>)
        ensures
            r@.len() == self@.header.signals.len(),
            forall|i: int|
                0 <= i < r@.len() ==> r@[i].0 == self@.header.signals[i].0 && r@[i].1@
                    == self@.header.signals[i].1.name,
    {
        let mut out: Vec<(u32, String)> = Vec::new();
        let n = self.header.signals.len();
        let mut i: usize = 0;
        while i < n
            invariant
                n == self.header.signals@.len(),
                i <= n,
                out@.len() == i,
                forall|k: int|
                    0 <= k < i ==> out@[k].0 == self@.header.signals[k].0 && out@[k].1@
                        == self@.header.signals[k].1.name,
            decreases n - i,
        {
            let id = self.header.signals[i].0;
            let name = self.header.signals[i].1.name.clone();
            out.push((id, name));
            i = i + 1;
        }
        out
    }

    /// Looks the id up in the signal table; the first entry with the id
    /// answers, which for a reader produced by `open` is the only one.
    pub fn get_signal_metadata(&self, signal_id: u32) -> (r: Option<&SignalMetadata>)
        ensures
            r is Some <==> assoc_has(self@.header.signals, signal_id),
            r is Some ==> r->Some_0@ == assoc_get(self@.header.signals, signal_id),
    {
        let n = self.header.signals.len();
        let mut i: usize = 0;
        while i < n && self.header.signals[i].0 != signal_id
            invariant
                n == self.header.signals@.len(),
                i <= n,
                forall|k: int| 0 <= k < i ==> self@.header.signals[k].0 != signal_id,
            decreases n - i,
        {
            i = i + 1;
        }
        proof {
            lemma_assoc_first_match(self@.header.signals, signal_id, i as int);
        }
        if i < n {
            Some(&self.header.signals[i].1)
        } else {
            None
        }
    }

    /// Resolves a signal name to its id: the first entry of the table whose
    /// name matches, so in ascending id order for a reader produced by
    /// `open`. Duplicated names resolve to the smallest matching id.
    pub fn get_signal_id_by_name(&self, name: &str) -> (r: Option<u32>)
        ensures
            r == spec_first_name_match(self@.header.signals, name@),
    {
        let target: String = name.to_owned();
        let n = self.header.signals.len();
        let mut i: usize = 0;
        while i < n && !(self.header.signals[i].1.name == target)
            invariant
                n == self.header.signals@.len(),
                i <= n,
                target@ == name@,
                forall|k: int| 0 <= k < i ==> self@.header.signals[k].1.name != name@,
            decreases n - i,
        {
            i = i + 1;
        }
        proof {
            lemma_first_name_match_at(self@.header.signals, name@, i as int);
        }
        if i < n {
            Some(self.header.signals[i].0)
        } else {
            None
        }
    }
}

/// The index entries that locate chunks of the signal, in their on-disk
/// order of appearance.
pub open spec fn entries_for(index: Seq<IndexEntry>, sid: u32) -> Seq<IndexEntry>
    decreases index.len(),
{
    if index.len() == 0 {
        Seq::empty()
    } else {
        let rest = entries_for(index.drop_first(), sid);
        if index[0].signal_id == sid {
            seq![index[0]] + rest
        } else {
            rest
        }
    }
}

/// Appending one index entry appends its singleton to the selection exactly
/// when the signal id matches.
pub proof fn lemma_entries_for_push(index: Seq<IndexEntry>, x: IndexEntry, sid: u32)
    ensures
        entries_for(index.push(x), sid) == entries_for(index, sid) + (if x.signal_id == sid {
            seq![x]
        } else {
            Seq::<IndexEntry>::empty()
        }),
    decreases index.len(),
{
    let tail = if x.signal_id == sid {
        seq![x]
    } else {
        Seq::<IndexEntry>::empty()
    };
    if index.len() == 0 {
        assert(index.push(x).drop_first() =~= Seq::<IndexEntry>::empty());
        assert(index.push(x)[0] == x);
        assert(entries_for(Seq::<IndexEntry>::empty(), sid) == Seq::<IndexEntry>::empty());
        assert(entries_for(index.push(x), sid) =~= entries_for(index, sid) + tail);
    } else {
        assert(index.push(x).drop_first() =~= index.drop_first().push(x));
        assert(index.push(x)[0] == index[0]);
        lemma_entries_for_push(index.drop_first(), x, sid);
        if index[0].signal_id == sid {
            assert(seq![index[0]] + (entries_for(index.drop_first(), sid) + tail) =~= (seq![
                index[0],
            ] + entries_for(index.drop_first(), sid)) + tail);
        }
    }
}

/// The views of a list of result chunks.
pub open spec fn chunk_views(v: Seq<TimeseriesChunk>) -> Seq<Seq<(u64, u64)>> {
    v.map(|i: int, c: TimeseriesChunk| c@)
}

/// Outcome of reading every chunk of one entry list, in order.
pub enum ChunksOutcome {
    /// The record list of each chunk, in entry order.
    Lists(Seq<Seq<(u64, u64)>>),
    /// The first chunk read that fails, read in entry order.
    Fail(ChunkOutcome),
}

/// Reads the chunks located by `es` in order; the first failure wins.
pub open spec fn spec_chunks_list(d: Seq<u8>, es: Seq<IndexEntry>, c: CompressionType) -> ChunksOutcome
    decreases es.len(),
{
    if es.len() == 0 {
        ChunksOutcome::Lists(Seq::empty())
    } else {
        match spec_chunk(d, es[0].offset as int, c) {
            ChunkOutcome::Records(rs) => match spec_chunks_list(d, es.drop_first(), c) {
                ChunksOutcome::Lists(ls) => ChunksOutcome::Lists(seq![rs] + ls),
                ChunksOutcome::Fail(f) => ChunksOutcome::Fail(f),
            },
            f => ChunksOutcome::Fail(f),
        }
    }
}

/// The concatenation of the record lists, in order.
pub open spec fn flat_records(ls: Seq<Seq<(u64, u64)>>) -> Seq<(u64, u64)>
    decreases ls.len(),
{
    if ls.len() == 0 {
        Seq::empty()
    } else {
        ls[0] + flat_records(ls.drop_first())
    }
}

/// Appending one record list appends its records to the concatenation.
pub proof fn lemma_flat_records_push(ls: Seq<Seq<(u64, u64)>>, x: Seq<(u64, u64)>)
    ensures
        flat_records(ls.push(x)) == flat_records(ls) + x,
    decreases ls.len(),
{
    if ls.len() == 0 {
        assert(ls.push(x).drop_first() =~= Seq::<Seq<(u64, u64)>>::empty());
        assert(ls.push(x)[0] == x);
        assert(flat_records(Seq::<Seq<(u64, u64)>>::empty()) == Seq::<(u64, u64)>::empty());
        assert(x + Seq::<(u64, u64)>::empty() =~= x);
        assert(flat_records(ls) + x =~= x);
    } else {
        assert(ls.push(x).drop_first() =~= ls.drop_first().push(x));
        assert(ls.push(x)[0] == ls[0]);
        lemma_flat_records_push(ls.drop_first(), x);
        assert(ls[0] + (flat_records(ls.drop_first()) + x) =~= (ls[0] + flat_records(
            ls.drop_first(),
        )) + x);
    }
}

/// Whether a record timestamp falls inside the inclusive query range.
pub open spec fn in_range(ts: u64, lo: u64, hi: u64) -> bool {
    ts_le(lo, ts) && ts_le(ts, hi)
}

/// The pruning rule: a chunk is skipped unread exactly when its advertised
/// time interval lies entirely outside the query range.
pub open spec fn pruned(e: IndexEntry, lo: u64, hi: u64) -> bool {
    ts_lt(e.max_timestamp, lo) || ts_lt(hi, e.min_timestamp)
}

/// The records whose timestamps fall inside the range, kept in order.
pub open spec fn filter_range(rs: Seq<(u64, u64)>, lo: u64, hi: u64) -> Seq<(u64, u64)>
    decreases rs.len(),
{
    if rs.len() == 0 {
        Seq::empty()
    } else {
        let rest = filter_range(rs.drop_first(), lo, hi);
        if in_range(rs[0].0, lo, hi) {
            seq![rs[0]] + rest
        } else {
            rest
        }
    }
}

/// Appending one record appends its singleton to the filtered sequence
/// exactly when it is in range.
pub proof fn lemma_filter_range_push(rs: Seq<(u64, u64)>, x: (u64, u64), lo: u64, hi: u64)
    ensures
        filter_range(rs.push(x), lo, hi) == filter_range(rs, lo, hi) + (if in_range(x.0, lo, hi) {
            seq![x]
        } else {
            Seq::<(u64, u64)>::empty()
        }),
    decreases rs.len(),
{
    let tail = if in_range(x.0, lo, hi) {
        seq![x]
    } else {
        Seq::<(u64, u64)>::empty()
    };
    if rs.len() == 0 {
        assert(rs.push(x).drop_first() =~= Seq::<(u64, u64)>::empty());
        assert(rs.push(x)[0] == x);
        assert(filter_range(Seq::<(u64, u64)>::empty(), lo, hi) == Seq::<(u64, u64)>::empty());
        assert(filter_range(rs.push(x), lo, hi) =~= filter_range(rs, lo, hi) + tail);
    } else {
        assert(rs.push(x).drop_first() =~= rs.drop_first().push(x));
        assert(rs.push(x)[0] == rs[0]);
        lemma_filter_range_push(rs.drop_first(), x, lo, hi);
        if in_range(rs[0].0, lo, hi) {
            assert(seq![rs[0]] + (filter_range(rs.drop_first(), lo, hi) + tail) =~= (seq![
                rs[0],
            ] + filter_range(rs.drop_first(), lo, hi)) + tail);
        }
    }
}

/// Outcome of a time-range query over one entry list.
pub enum TimeRangeOutcome {
    /// The in-range records, in on-disk order across the unpruned chunks.
    Recs(Seq<(u64, u64)>),
    /// The first failing chunk read among the unpruned chunks.
    Fail(ChunkOutcome),
}

/// Walks the entries in order: a pruned chunk is skipped unread, every other
/// chunk is read and filtered record by record; the first failure wins.
pub open spec fn spec_time_range(
    d: Seq<u8>,
    es: Seq<IndexEntry>,
    c: CompressionType,
    lo: u64,
    hi: u64,
) -> TimeRangeOutcome
    decreases es.len(),
{
    if es.len() == 0 {
        TimeRangeOutcome::Recs(Seq::empty())
    } else if pruned(es[0], lo, hi) {
        spec_time_range(d, es.drop_first(), c, lo, hi)
    } else {
        match spec_chunk(d, es[0].offset as int, c) {
            ChunkOutcome::Records(rs) => match spec_time_range(d, es.drop_first(), c, lo, hi) {
                TimeRangeOutcome::Recs(t) => TimeRangeOutcome::Recs(
                    filter_range(rs, lo, hi) + t,
                ),
                TimeRangeOutcome::Fail(f) => TimeRangeOutcome::Fail(f),
            },
            f => TimeRangeOutcome::Fail(f),
        }
    }
}

/// How the result of `read_signal_chunks` corresponds to the spec outcome:
/// no entry for the signal is `SignalNotFound` carrying the decimal id, an
/// unknown compression byte is `UnsupportedCompression`, and otherwise the
/// chunks are read in entry order, the first failure winning.
pub open spec fn query_chunks_matches(
    rv: ReaderView,
    sid: u32,
    r: Result<Vec<TimeseriesChunk>, PltxError>,
) -> bool {
    let es = entries_for(rv.index, sid);
    if es.len() == 0 {
        r is Err && (r->Err_0 matches PltxError::SignalNotFound(s) && s@ == spec_dec(sid as nat))
    } else {
        match spec_compression_from_u8(rv.header.compression) {
            None => r is Err && r->Err_0 == PltxError::UnsupportedCompression(
                rv.header.compression,
            ),
            Some(c) => match spec_chunks_list(rv.data, es, c) {
                ChunksOutcome::Lists(ls) => r is Ok && chunk_views(r->Ok_0@) == ls && (forall|
                    i: int,
                |
                    0 <= i < r->Ok_0@.len() ==> r->Ok_0@[i].wf()),
                ChunksOutcome::Fail(f) => r is Err && chunk_fail_matches(f, r->Err_0),
            },
        }
    }
}

/// How the result of `read_signal_all` corresponds to the spec outcome: on
/// success it is the concatenation, in entry order, of exactly the record
/// lists that `read_signal_chunks` yields.
pub open spec fn query_all_matches(
    rv: ReaderView,
    sid: u32,
    r: Result<TimeseriesChunk, PltxError>,
) -> bool {
    let es = entries_for(rv.index, sid);
    if es.len() == 0 {
        r is Err && (r->Err_0 matches PltxError::SignalNotFound(s) && s@ == spec_dec(sid as nat))
    } else {
        match spec_compression_from_u8(rv.header.compression) {
            None => r is Err && r->Err_0 == PltxError::UnsupportedCompression(
                rv.header.compression,
            ),
            Some(c) => match spec_chunks_list(rv.data, es, c) {
                ChunksOutcome::Lists(ls) => r is Ok && r->Ok_0@ == flat_records(ls)
                    && r->Ok_0.wf(),
                ChunksOutcome::Fail(f) => r is Err && chunk_fail_matches(f, r->Err_0),
            },
        }
    }
}

/// How the result of `read_time_range` corresponds to the spec outcome: on
/// success the records of the unpruned chunks whose timestamps fall in the
/// inclusive range, in on-disk order.
pub open spec fn query_range_matches(
    rv: ReaderView,
    sid: u32,
    lo: u64,
    hi: u64,
    r: Result<TimeseriesChunk, PltxError>,
) -> bool {
    let es = entries_for(rv.index, sid);
    if es.len() == 0 {
        r is Err && (r->Err_0 matches PltxError::SignalNotFound(s) && s@ == spec_dec(sid as nat))
    } else {
        match spec_compression_from_u8(rv.header.compression) {
            None => r is Err && r->Err_0 == PltxError::UnsupportedCompression(
                rv.header.compression,
            ),
            Some(c) => match spec_time_range(rv.data, es, c, lo, hi) {
                TimeRangeOutcome::Recs(rs) => r is Ok && r->Ok_0@ == rs && r->Ok_0.wf(),
                TimeRangeOutcome::Fail(f) => r is Err && chunk_fail_matches(f, r->Err_0),
            },
        }
    }
}

impl PltxReader {
    /// Collects the index entries of the signal, in their on-disk order.
    fn signal_entries(&self, sid: u32) -> (es: Vec<IndexEntry>)
        ensures
            es@ == entries_for(self@.index, sid),
    {
        let mut es: Vec<IndexEntry> = Vec::new();
        let n = self.index.len();
        let mut i: usize = 0;
        proof {
            assert(self@.index.take(0) =~= Seq::<IndexEntry>::empty());
            assert(entries_for(Seq::<IndexEntry>::empty(), sid) == Seq::<IndexEntry>::empty());
            assert(es@ =~= entries_for(self@.index.take(0), sid));
        }
        while i < n
            invariant
                n == self@.index.len(),
                i <= n,
                es@ == entries_for(self@.index.take(i as int), sid),
            decreases n - i,
        {
            let e = self.index[i];
            proof {
                lemma_entries_for_push(self@.index.take(i as int), e, sid);
                assert(self@.index.take(i as int + 1) =~= self@.index.take(i as int).push(e));
            }
            if e.signal_id == sid {
                es.push(e);
            } else {
                proof {
                    assert(entries_for(self@.index.take(i as int), sid) + Seq::<
                        IndexEntry,
                    >::empty() =~= entries_for(self@.index.take(i as int), sid));
                }
            }
            i = i + 1;
        }
        proof {
            assert(self@.index.take(n as int) =~= self@.index);
        }
        es
    }

    /// Reads every chunk of the signal, one result chunk per index entry,
    /// in the order the entries appear in the index.
    pub fn read_signal_chunks(&self, signal_id: u32) -> (r: Result<Vec<TimeseriesChunk>, PltxError>)
        ensures
            query_chunks_matches(self@, signal_id, r),
    {
        let entries = self.signal_entries(signal_id);
        if entries.is_empty() {
            return Err(PltxError::SignalNotFound(u32_to_decimal(signal_id)));
        }
        let compression = match CompressionType::from_u8(self.header.compression) {
            Some(c) => c,
            None => {
                return Err(PltxError::UnsupportedCompression(self.header.compression));
            },
        };
        let ghost es = entries@;
        let ghost d = self@.data;
        let mut chunks: Vec<TimeseriesChunk> = Vec::new();
        let n = entries.len();
        let mut i: usize = 0;
        proof {
            assert(es.skip(0) =~= es);
            assert(chunk_views(chunks@) =~= Seq::<Seq<(u64, u64)>>::empty());
        }
        while i < n
            invariant
                n == es.len(),
                entries@ == es,
                es == entries_for(self@.index, signal_id),
                i <= n,
                d == self@.data,
                spec_compression_from_u8(self@.header.compression) == Some(compression),
                forall|k: int| 0 <= k < chunks@.len() ==> chunks@[k].wf(),
                spec_chunks_list(d, es, compression) == (match spec_chunks_list(
                    d,
                    es.skip(i as int),
                    compression,
                ) {
                    ChunksOutcome::Lists(ls) => ChunksOutcome::Lists(chunk_views(chunks@) + ls),
                    ChunksOutcome::Fail(f) => ChunksOutcome::Fail(f),
                }),
            decreases n - i,
        {
            let e = entries[i];
            proof {
                assert(es.skip(i as int).len() == n - i);
                assert(es.skip(i as int)[0] == es[i as int]);
                assert(es.skip(i as int).drop_first() =~= es.skip(i as int + 1));
            }
            match read_chunk_at(&self.data, e.offset, compression) {
                Err(err) => {
                    proof {
                        let f = spec_chunk(d, es[i as int].offset as int, compression);
                        assert(!(f is Records));
                        assert(spec_chunks_list(d, es.skip(i as int), compression)
                            == ChunksOutcome::Fail(f));
                    }
                    return Err(err);
                },
                Ok(ch) => {
                    proof {
                        let rs = ch@;
                        let tail = spec_chunks_list(d, es.skip(i as int + 1), compression);
                        if tail is Lists {
                            assert(chunk_views(chunks@.push(ch)) =~= chunk_views(chunks@) + seq![
                                rs,
                            ]);
                            assert(chunk_views(chunks@) + (seq![rs] + tail->Lists_0) =~= (
                            chunk_views(chunks@) + seq![rs]) + tail->Lists_0);
                        }
                    }
                    chunks.push(ch);
                    i = i + 1;
                },
            }
        }
        proof {
            assert(es.skip(n as int) =~= Seq::<IndexEntry>::empty());
            assert(spec_chunks_list(d, Seq::<IndexEntry>::empty(), compression)
                == ChunksOutcome::Lists(Seq::<Seq<(u64, u64)>>::empty()));
            assert(chunk_views(chunks@) + Seq::<Seq<(u64, u64)>>::empty() =~= chunk_views(
                chunks@,
            ));
        }
        Ok(chunks)
    }

    /// Reads the whole signal: one result chunk holding the concatenation
    /// of every chunk's records, in on-disk order.
    pub fn read_signal_all(&self, signal_id: u32) -> (r: Result<TimeseriesChunk, PltxError>)
        ensures
            query_all_matches(self@, signal_id, r),
    {
        let entries = self.signal_entries(signal_id);
        if entries.is_empty() {
            return Err(PltxError::SignalNotFound(u32_to_decimal(signal_id)));
        }
        let compression = match CompressionType::from_u8(self.header.compression) {
            Some(c) => c,
            None => {
                return Err(PltxError::UnsupportedCompression(self.header.compression));
            },
        };
        let ghost es = entries@;
        let ghost d = self@.data;
        let mut result = TimeseriesChunk::new();
        let ghost mut pviews = Seq::<Seq<(u64, u64)>>::empty();
        let n = entries.len();
        let mut i: usize = 0;
        proof {
            assert(es.skip(0) =~= es);
            assert(flat_records(pviews) == Seq::<(u64, u64)>::empty());
            assert(result@ =~= flat_records(pviews));
        }
        while i < n
            invariant
                n == es.len(),
                entries@ == es,
                es == entries_for(self@.index, signal_id),
                i <= n,
                d == self@.data,
                spec_compression_from_u8(self@.header.compression) == Some(compression),
                result.wf(),
                result@ == flat_records(pviews),
                spec_chunks_list(d, es, compression) == (match spec_chunks_list(
                    d,
                    es.skip(i as int),
                    compression,
                ) {
                    ChunksOutcome::Lists(ls) => ChunksOutcome::Lists(pviews + ls),
                    ChunksOutcome::Fail(f) => ChunksOutcome::Fail(f),
                }),
            decreases n - i,
        {
            let e = entries[i];
            proof {
                assert(es.skip(i as int).len() == n - i);
                assert(es.skip(i as int)[0] == es[i as int]);
                assert(es.skip(i as int).drop_first() =~= es.skip(i as int + 1));
            }
            match read_chunk_at(&self.data, e.offset, compression) {
                Err(err) => {
                    proof {
                        let f = spec_chunk(d, es[i as int].offset as int, compression);
                        assert(!(f is Records));
                        assert(spec_chunks_list(d, es.skip(i as int), compression)
                            == ChunksOutcome::Fail(f));
                    }
                    return Err(err);
                },
                Ok(mut ch) => {
                    let ghost rs = ch@;
                    let ghost r0 = result@;
                    result.timestamps.append(&mut ch.timestamps);
                    result.values.append(&mut ch.values);
                    proof {
                        assert(result@ =~= r0 + rs);
                        lemma_flat_records_push(pviews, rs);
                        let tail = spec_chunks_list(d, es.skip(i as int + 1), compression);
                        if tail is Lists {
                            assert(pviews + (seq![rs] + tail->Lists_0) =~= (pviews + seq![rs])
                                + tail->Lists_0);
                            assert(pviews.push(rs) =~= pviews + seq![rs]);
                        }
                        pviews = pviews.push(rs);
                    }
                    i = i + 1;
                },
            }
        }
        proof {
            assert(es.skip(n as int) =~= Seq::<IndexEntry>::empty());
            assert(spec_chunks_list(d, Seq::<IndexEntry>::empty(), compression)
                == ChunksOutcome::Lists(Seq::<Seq<(u64, u64)>>::empty()));
            assert(pviews + Seq::<Seq<(u64, u64)>>::empty() =~= pviews);
        }
        Ok(result)
    }

    /// Reads the records of the signal whose timestamps fall in the
    /// inclusive range `[start_time, end_time]` (given as binary64 bit
    /// patterns). Chunks whose advertised interval is disjoint from the
    /// range are skipped unread; the rest are decompressed and filtered
    /// record by record, in on-disk order. An empty range yields an empty
    /// result, not an error.
    pub fn read_time_range(&self, signal_id: u32, start_time: u64, end_time: u64) -> (r: Result<
        TimeseriesChunk,
        PltxError,
    >)
        ensures
            query_range_matches(self@, signal_id, start_time, end_time, r),
    {
        let entries = self.signal_entries(signal_id);
        if entries.is_empty() {
            return Err(PltxError::SignalNotFound(u32_to_decimal(signal_id)));
        }
        let compression = match CompressionType::from_u8(self.header.compression) {
            Some(c) => c,
            None => {
                return Err(PltxError::UnsupportedCompression(self.header.compression));
            },
        };
        let ghost es = entries@;
        let ghost d = self@.data;
        let mut result = TimeseriesChunk::new();
        let n = entries.len();
        let mut i: usize = 0;
        proof {
            assert(es.skip(0) =~= es);
        }
        while i < n
            invariant
                n == es.len(),
                entries@ == es,
                es == entries_for(self@.index, signal_id),
                i <= n,
                d == self@.data,
                spec_compression_from_u8(self@.header.compression) == Some(compression),
                result.wf(),
                spec_time_range(d, es, compression, start_time, end_time) == (match spec_time_range(
                    d,
                    es.skip(i as int),
                    compression,
                    start_time,
                    end_time,
                ) {
                    TimeRangeOutcome::Recs(t) => TimeRangeOutcome::Recs(result@ + t),
                    TimeRangeOutcome::Fail(f) => TimeRangeOutcome::Fail(f),
                }),
            decreases n - i,
        {
            let e = entries[i];
            proof {
                assert(es.skip(i as int).len() == n - i);
                assert(es.skip(i as int)[0] == es[i as int]);
                assert(es.skip(i as int).drop_first() =~= es.skip(i as int + 1));
            }
            if lt_bits(e.max_timestamp, start_time) || lt_bits(end_time, e.min_timestamp) {
                i = i + 1;
                continue;
            }
            match read_chunk_at(&self.data, e.offset, compression) {
                Err(err) => {
                    proof {
                        let f = spec_chunk(d, es[i as int].offset as int, compression);
                        assert(!(f is Records));
                        assert(!pruned(es[i as int], start_time, end_time));
                        assert(spec_time_range(d, es.skip(i as int), compression, start_time,
                            end_time) == TimeRangeOutcome::Fail(f));
                    }
                    return Err(err);
                },
                Ok(ch) => {
                    let ghost rs = ch@;
                    let ghost r0 = result@;
                    let m = ch.timestamps.len();
                    let mut j: usize = 0;
                    proof {
                        assert(rs.take(0) =~= Seq::<(u64, u64)>::empty());
                        assert(filter_range(Seq::<(u64, u64)>::empty(), start_time, end_time)
                            == Seq::<(u64, u64)>::empty());
                        assert(r0 + filter_range(rs.take(0), start_time, end_time) =~= r0);
                    }
                    while j < m
                        invariant
                            m == ch.timestamps@.len(),
                            m == ch.values@.len(),
                            rs == ch@,
                            j <= m,
                            result.wf(),
                            result@ == r0 + filter_range(rs.take(j as int), start_time, end_time),
                        decreases m - j,
                    {
                        let ts = ch.timestamps[j];
                        let v = ch.values[j];
                        proof {
                            assert(rs[j as int] == (ts, v));
                            lemma_filter_range_push(
                                rs.take(j as int),
                                (ts, v),
                                start_time,
                                end_time,
                            );
                            assert(rs.take(j as int + 1) =~= rs.take(j as int).push((ts, v)));
                        }
                        if le_bits(start_time, ts) && le_bits(ts, end_time) {
                            let ghost rb = result@;
                            result.timestamps.push(ts);
                            result.values.push(v);
                            proof {
                                assert(result@ =~= rb + seq![(ts, v)]);
                                assert(rb + seq![(ts, v)] =~= r0 + (filter_range(
                                    rs.take(j as int),
                                    start_time,
                                    end_time,
                                ) + seq![(ts, v)]));
                            }
                        } else {
                            proof {
                                assert(filter_range(rs.take(j as int), start_time, end_time)
                                    + Seq::<(u64, u64)>::empty() =~= filter_range(
                                    rs.take(j as int),
                                    start_time,
                                    end_time,
                                ));
                            }
                        }
                        j = j + 1;
                    }
                    proof {
                        assert(rs.take(m as int) =~= rs);
                        let tail = spec_time_range(
                            d,
                            es.skip(i as int + 1),
                            compression,
                            start_time,
                            end_time,
                        );
                        if tail is Recs {
                            assert(r0 + (filter_range(rs, start_time, end_time) + tail->Recs_0)
                                =~= (r0 + filter_range(rs, start_time, end_time)) + tail->Recs_0);
                        }
                    }
                    i = i + 1;
                },
            }
        }
        proof {
            assert(es.skip(n as int) =~= Seq::<IndexEntry>::empty());
            assert(spec_time_range(
                d,
                Seq::<IndexEntry>::empty(),
                compression,
                start_time,
                end_time,
            ) == TimeRangeOutcome::Recs(Seq::<(u64, u64)>::empty()));
            assert(result@ + Seq::<(u64, u64)>::empty() =~= result@);
        }
        Ok(result)
    }
}

/// The id of the first table entry whose name matches, if any.
pub open spec fn spec_first_name_match(
    s: Seq<(u32, crate::format::SignalMetadataView)>,
    n: Seq<char>,
) -> Option<u32>
    decreases s.len(),
{
    if s.len() == 0 {
        None
    } else if s[0].1.name == n {
        Some(s[0].0)
    } else {
        spec_first_name_match(s.drop_first(), n)
    }
}

/// A positional first match agrees with the recursive lookup: if everything
/// before `i` misses and `i` (when in range) hits, the lookup answers `i`.
pub proof fn lemma_assoc_first_match(s: Seq<(u32, crate::format::SignalMetadataView)>, id: u32, i: int)
    requires
        0 <= i <= s.len(),
        forall|k: int| 0 <= k < i ==> s[k].0 != id,
        i < s.len() ==> s[i].0 == id,
    ensures
        i < s.len() ==> assoc_has(s, id) && assoc_get(s, id) == s[i].1,
        i == s.len() ==> !assoc_has(s, id),
    decreases i,
{
    if i == 0 {
        if i < s.len() {
            assert(assoc_has(s, id));
        }
    } else {
        let t = s.drop_first();
        assert(forall|k: int| 0 <= k < i - 1 ==> t[k] == s[k + 1] && t[k].0 != id);
        assert(i - 1 < t.len() ==> t[i - 1] == s[i]);
        lemma_assoc_first_match(t, id, i - 1);
        if i < s.len() {
            assert(t[i - 1].0 == id);
            assert(exists|j: int| 0 <= j < t.len() && t[j].0 == id);
            let j = choose|j: int| 0 <= j < t.len() && t[j].0 == id;
            assert(s[j + 1].0 == id);
            assert(assoc_has(s, id));
        } else {
            assert(!assoc_has(s, id)) by {
                if exists|j: int| 0 <= j < s.len() && s[j].0 == id {
                    let j = choose|j: int| 0 <= j < s.len() && s[j].0 == id;
                    assert(j >= 1 ==> t[j - 1].0 == id);
                }
            }
        }
    }
}

/// The same positional agreement for the name lookup.
pub proof fn lemma_first_name_match_at(
    s: Seq<(u32, crate::format::SignalMetadataView)>,
    n: Seq<char>,
    i: int,
)
    requires
        0 <= i <= s.len(),
        forall|k: int| 0 <= k < i ==> s[k].1.name != n,
        i < s.len() ==> s[i].1.name == n,
    ensures
        i < s.len() ==> spec_first_name_match(s, n) == Some(s[i].0),
        i == s.len() ==> spec_first_name_match(s, n) is None,
    decreases i,
{
    if i == 0 {
    } else {
        let t = s.drop_first();
        assert(forall|k: int| 0 <= k < i - 1 ==> t[k] == s[k + 1] && t[k].1.name != n);
        assert(i - 1 < t.len() ==> t[i - 1] == s[i]);
        lemma_first_name_match_at(t, n, i - 1);
    }
}

} // verus!
