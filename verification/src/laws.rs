//! The library-wide laws: statements that relate the query operations to
//! one another, proved from the same spec functions that the operations'
//! own contracts use.

use vstd::prelude::*;

use crate::constants::{CompressionType, CHUNK_MAGIC, FOOTER_MAGIC, INDEX_MAGIC, MAGIC};
use crate::format::{IndexEntry, SignalMetadataView, TimeseriesChunk};
use crate::parse::{assoc_get, assoc_has, sig_ids_sorted, spec_header, spec_open,
    HeaderOutcome, OpenOutcome};
use crate::reader::{chunk_views, filter_range, flat_records, in_range,
    lemma_assoc_first_match, lemma_first_name_match_at, pruned, query_all_matches,
    query_chunks_matches, spec_chunk, spec_chunks_list, spec_first_name_match, spec_time_range,
    ChunkOutcome, ReaderView, TimeRangeOutcome};
use crate::error::PltxError;
use crate::bytes::u64_at;
use crate::ts_order::ts_le;

verus! {

/// Round-trip totality: whenever the whole-signal and the per-chunk queries
/// of one reader and signal both answer, they answer together, and the
/// whole-signal result is exactly the flattened concatenation, in order, of
/// the per-chunk results.
pub proof fn lemma_round_trip(
    rv: ReaderView,
    sid: u32,
    all: Result<TimeseriesChunk, PltxError>,
    chunks: Result<Vec<TimeseriesChunk>, PltxError>,
)
    requires
        query_all_matches(rv, sid, all),
        query_chunks_matches(rv, sid, chunks),
    ensures
        all is Ok <==> chunks is Ok,
        all is Ok ==> all->Ok_0@ == flat_records(chunk_views(chunks->Ok_0@)),
{
}

/// Every record that `filter_range` keeps is in range.
pub proof fn lemma_filter_range_sound(rs: Seq<(u64, u64)>, lo: u64, hi: u64)
    ensures
        forall|k: int|
            0 <= k < filter_range(rs, lo, hi).len() ==> in_range(
                filter_range(rs, lo, hi)[k].0,
                lo,
                hi,
            ),
    decreases rs.len(),
{
    if rs.len() == 0 {
    } else {
        lemma_filter_range_sound(rs.drop_first(), lo, hi);
        let rest = filter_range(rs.drop_first(), lo, hi);
        if in_range(rs[0].0, lo, hi) {
            assert(filter_range(rs, lo, hi) == seq![rs[0]] + rest);
            assert forall|k: int| 0 <= k < filter_range(rs, lo, hi).len() implies in_range(
                filter_range(rs, lo, hi)[k].0,
                lo,
                hi,
            ) by {
                if k > 0 {
                    assert((seq![rs[0]] + rest)[k] == rest[k - 1]);
                }
            }
        } else {
            assert(filter_range(rs, lo, hi) == rest);
        }
    }
}

/// Time-range soundness: for `lo <= hi`, every timestamp that a time-range
/// query returns lies in the inclusive range.
pub proof fn lemma_time_range_sound(
    d: Seq<u8>,
    es: Seq<IndexEntry>,
    c: CompressionType,
    lo: u64,
    hi: u64,
)
    requires
        ts_le(lo, hi),
    ensures
        spec_time_range(d, es, c, lo, hi) matches TimeRangeOutcome::Recs(rs) ==> forall|k: int|
            0 <= k < rs.len() ==> in_range(rs[k].0, lo, hi),
    decreases es.len(),
{
    if es.len() == 0 {
    } else {
        lemma_time_range_sound(d, es.drop_first(), c, lo, hi);
        if !pruned(es[0], lo, hi) {
            match spec_chunk(d, es[0].offset as int, c) {
                ChunkOutcome::Records(rs) => {
                    lemma_filter_range_sound(rs, lo, hi);
                },
                _ => {},
            }
        }
    }
}

/// `filter_range` distributes over concatenation.
pub proof fn lemma_filter_range_add(a: Seq<(u64, u64)>, b: Seq<(u64, u64)>, lo: u64, hi: u64)
    ensures
        filter_range(a + b, lo, hi) == filter_range(a, lo, hi) + filter_range(b, lo, hi),
    decreases a.len(),
{
    if a.len() == 0 {
        assert(a + b =~= b);
        assert(filter_range(a, lo, hi) == Seq::<(u64, u64)>::empty());
        assert(filter_range(a, lo, hi) + filter_range(b, lo, hi) =~= filter_range(b, lo, hi));
    } else {
        assert((a + b).drop_first() =~= a.drop_first() + b);
        assert((a + b)[0] == a[0]);
        assert((a + b).len() > 0);
        lemma_filter_range_add(a.drop_first(), b, lo, hi);
        if in_range(a[0].0, lo, hi) {
            assert(seq![a[0]] + (filter_range(a.drop_first(), lo, hi) + filter_range(b, lo, hi))
                =~= (seq![a[0]] + filter_range(a.drop_first(), lo, hi)) + filter_range(
                b,
                lo,
                hi,
            ));
        }
    }
}

/// A sequence with no in-range record filters to nothing.
pub proof fn lemma_filter_range_none(rs: Seq<(u64, u64)>, lo: u64, hi: u64)
    requires
        forall|k: int| 0 <= k < rs.len() ==> !in_range(rs[k].0, lo, hi),
    ensures
        filter_range(rs, lo, hi) == Seq::<(u64, u64)>::empty(),
    decreases rs.len(),
{
    if rs.len() == 0 {
    } else {
        assert(forall|k: int|
            0 <= k < rs.drop_first().len() ==> rs.drop_first()[k] == rs[k + 1] && !in_range(
                rs.drop_first()[k].0,
                lo,
                hi,
            ));
        lemma_filter_range_none(rs.drop_first(), lo, hi);
        assert(!in_range(rs[0].0, lo, hi));
    }
}

/// Whether the chunk stored for an index entry keeps every record timestamp
/// inside the entry's advertised `[min_timestamp, max_timestamp]` interval.
pub open spec fn chunk_honors_bounds(d: Seq<u8>, e: IndexEntry, c: CompressionType) -> bool {
    match spec_chunk(d, e.offset as int, c) {
        ChunkOutcome::Records(rs) => forall|j: int|
            0 <= j < rs.len() ==> ts_le(e.min_timestamp, rs[j].0) && ts_le(
                rs[j].0,
                e.max_timestamp,
            ),
        _ => true,
    }
}

/// Prune safety and time-range completeness in one statement: when every
/// chunk is readable and honors its advertised bounds, the time-range query
/// (which skips chunks whose advertised interval is disjoint from the
/// range) returns exactly the in-range records of the whole signal, in the
/// same relative order as the whole-signal read returns them.
pub proof fn lemma_prune_safety(
    d: Seq<u8>,
    es: Seq<IndexEntry>,
    c: CompressionType,
    lo: u64,
    hi: u64,
)
    requires
        spec_chunks_list(d, es, c) is Lists,
        forall|k: int| 0 <= k < es.len() ==> chunk_honors_bounds(d, #[trigger] es[k], c),
    ensures
        spec_time_range(d, es, c, lo, hi) == TimeRangeOutcome::Recs(
            filter_range(flat_records(spec_chunks_list(d, es, c)->Lists_0), lo, hi),
        ),
    decreases es.len(),
{
    if es.len() == 0 {
        assert(flat_records(Seq::<Seq<(u64, u64)>>::empty()) == Seq::<(u64, u64)>::empty());
        assert(filter_range(Seq::<(u64, u64)>::empty(), lo, hi) == Seq::<(u64, u64)>::empty());
    } else {
        let e = es[0];
        let t = es.drop_first();
        assert(chunk_honors_bounds(d, e, c));
        assert(forall|k: int| 0 <= k < t.len() ==> t[k] == es[k + 1]);
        let rs = spec_chunk(d, e.offset as int, c)->Records_0;
        assert(spec_chunk(d, e.offset as int, c) is Records && spec_chunks_list(d, t, c)
            is Lists) by {
            assert(spec_chunks_list(d, es, c) is Lists);
        }
        lemma_prune_safety(d, t, c, lo, hi);
        let ls_tail = spec_chunks_list(d, t, c)->Lists_0;
        assert(spec_chunks_list(d, es, c)->Lists_0 == seq![rs] + ls_tail);
        assert(flat_records(seq![rs] + ls_tail) == rs + flat_records(ls_tail)) by {
            assert((seq![rs] + ls_tail)[0] == rs);
            assert((seq![rs] + ls_tail).drop_first() =~= ls_tail);
        }
        lemma_filter_range_add(rs, flat_records(ls_tail), lo, hi);
        if pruned(e, lo, hi) {
            assert(forall|j: int| 0 <= j < rs.len() ==> !in_range(rs[j].0, lo, hi));
            lemma_filter_range_none(rs, lo, hi);
            assert(Seq::<(u64, u64)>::empty() + filter_range(flat_records(ls_tail), lo, hi)
                =~= filter_range(flat_records(ls_tail), lo, hi));
        }
    }
}

/// Metadata consistency, forward direction: every row of a sorted signal
/// table is found by id lookup, with exactly its stored metadata. The rows
/// are what `list_signals` returns.
pub proof fn lemma_metadata_consistency(signals: Seq<(u32, SignalMetadataView)>, i: int)
    requires
        sig_ids_sorted(signals),
        0 <= i < signals.len(),
    ensures
        assoc_has(signals, signals[i].0),
        assoc_get(signals, signals[i].0) == signals[i].1,
{
    assert(forall|k: int| 0 <= k < i ==> signals[k].0 < signals[i].0);
    lemma_assoc_first_match(signals, signals[i].0, i);
}

/// Metadata consistency, reverse direction: when a row's name occurs in no
/// other row, looking the name up answers that row's id.
pub proof fn lemma_name_resolves(signals: Seq<(u32, SignalMetadataView)>, i: int)
    requires
        0 <= i < signals.len(),
        forall|j: int|
            0 <= j < signals.len() && j != i ==> signals[j].1.name != signals[i].1.name,
    ensures
        spec_first_name_match(signals, signals[i].1.name) == Some(signals[i].0),
{
    lemma_first_name_match_at(signals, signals[i].1.name, i);
}

/// Concurrency safety, as far as it is a statement about values: queries
/// borrow the reader shared and the reader never mutates, so every result is
/// a function of the reader's immutable content alone. Any two whole-signal
/// reads of one reader and signal — in particular two runs interleaved with
/// any other queries — agree on their records; the analogous statement holds
/// for the other two queries through their own contracts.
pub proof fn lemma_query_determinism(
    rv: ReaderView,
    sid: u32,
    r1: Result<TimeseriesChunk, PltxError>,
    r2: Result<TimeseriesChunk, PltxError>,
)
    requires
        query_all_matches(rv, sid, r1),
        query_all_matches(rv, sid, r2),
    ensures
        r1 is Ok <==> r2 is Ok,
        r1 is Ok ==> r1->Ok_0@ == r2->Ok_0@,
{
}

/// Magic invariance at the file magic: an image of header size whose first
/// four bytes are not the file magic opens as `InvalidMagic` carrying those
/// bytes.
pub proof fn lemma_bad_file_magic(d: Seq<u8>)
    requires
        d.len() >= 16,
        d.subrange(0, 4) != MAGIC@,
    ensures
        spec_open(d) == OpenOutcome::BadFileMagic(d.subrange(0, 4)),
{
}

/// Magic invariance at the footer: once the header parses, a footer whose
/// magic differs opens as `InvalidMagic` carrying the found bytes.
pub proof fn lemma_bad_footer_magic(d: Seq<u8>)
    requires
        spec_header(d) is Got,
        d.subrange(d.len() - 12, d.len() - 8) != FOOTER_MAGIC@,
    ensures
        spec_open(d) == OpenOutcome::BadFooterMagic(d.subrange(d.len() - 12, d.len() - 8)),
{
    match spec_header(d) {
        HeaderOutcome::Got(h, end) => {
            assert(d.len() >= 16);
        },
        _ => {},
    }
}

/// Magic invariance at the index: once the header parses and the footer
/// checks, an index position holding other bytes opens as `InvalidMagic`
/// carrying them.
pub proof fn lemma_bad_index_magic(d: Seq<u8>)
    requires
        spec_header(d) is Got,
        d.subrange(d.len() - 12, d.len() - 8) == FOOTER_MAGIC@,
        u64_at(d, d.len() - 8) as int + 4 <= d.len(),
        d.subrange(u64_at(d, d.len() - 8) as int, u64_at(d, d.len() - 8) as int + 4) != INDEX_MAGIC@,
    ensures
        spec_open(d) == OpenOutcome::BadIndexMagic(
            d.subrange(u64_at(d, d.len() - 8) as int, u64_at(d, d.len() - 8) as int + 4),
        ),
{
    match spec_header(d) {
        HeaderOutcome::Got(h, end) => {
            assert(d.len() >= 16);
        },
        _ => {},
    }
}

/// The fourth magic: a chunk offset holding other bytes fails the chunk
/// read as corrupted data (not as `InvalidMagic`; chunks are only reached
/// by queries, never by `open`).
pub proof fn lemma_bad_chunk_magic(d: Seq<u8>, off: int, c: CompressionType)
    requires
        0 <= off,
        off + 4 <= d.len(),
        d.subrange(off, off + 4) != CHUNK_MAGIC@,
    ensures
        spec_chunk(d, off, c) == ChunkOutcome::BadChunkMagic,
{
}

} // verus!
