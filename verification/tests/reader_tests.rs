use flate2::write::ZlibEncoder;
use flate2::Compression;
use std::io::Write;
use pltx_reader::{CompressionType, PltxError, PltxReader};

// ---------- helpers that synthesize file images ----------

fn compress_payload(raw: &[u8], compression: u8) -> Vec<u8> {
    match compression {
        0 => raw.to_vec(),
        1 => {
                                    let mut enc = ZlibEncoder::new(Vec::new(), Compression::default());
            enc.write_all(raw).unwrap();
            enc.finish().unwrap()
        }
        2 => lz4::block::compress(raw, None, true).unwrap(),
        3 => zstd::encode_all(raw, 0).unwrap(),
        _ => raw.to_vec(),
    }
}

fn push_string(d: &mut Vec<u8>, s: &str) {
    d.extend_from_slice(&(s.len() as u16).to_le_bytes());
    d.extend_from_slice(s.as_bytes());
}

fn header_bytes(compression: u8, signals: &[(u32, &str, &str, &str, &str)]) -> Vec<u8> {
    let mut d = Vec::new();
    d.extend_from_slice(b"PLTX");
    d.push(2); // version
    d.push(compression);
    d.extend_from_slice(&0.0f64.to_le_bytes()); // created
    d.extend_from_slice(&(signals.len() as u16).to_le_bytes());
    for (id, name, unit, desc, src) in signals {
        d.extend_from_slice(&id.to_le_bytes());
        push_string(&mut d, name);
        push_string(&mut d, unit);
        push_string(&mut d, desc);
        push_string(&mut d, src);
    }
    d
}

/// Builds a complete image: header, the given chunks packed contiguously,
/// the index (entry order = chunk order), and the footer.
fn build_file(
    compression: u8,
    signals: &[(u32, &str, &str, &str, &str)],
    chunks: &[(u32, Vec<(f64, f64)>)],
) -> Vec<u8> {
    let mut d = header_bytes(compression, signals);
    let mut entries: Vec<(u32, u64, f64, f64)> = Vec::new();
    for (sid, recs) in chunks {
        let offset = d.len() as u64;
        let mut raw = Vec::new();
        for (ts, v) in recs {
            raw.extend_from_slice(&ts.to_le_bytes());
            raw.extend_from_slice(&v.to_le_bytes());
        }
        let comp = compress_payload(&raw, compression);
        let min = recs.iter().map(|r| r.0).fold(f64::INFINITY, f64::min);
        let max = recs.iter().map(|r| r.0).fold(f64::NEG_INFINITY, f64::max);
        d.extend_from_slice(b"CHNK");
        d.extend_from_slice(&sid.to_le_bytes());
        d.extend_from_slice(&(recs.len() as u32).to_le_bytes());
        d.extend_from_slice(&(raw.len() as u32).to_le_bytes());
        d.extend_from_slice(&(comp.len() as u32).to_le_bytes());
        d.extend_from_slice(&min.to_le_bytes());
        d.extend_from_slice(&max.to_le_bytes());
        d.extend_from_slice(&comp);
        entries.push((*sid, offset, min, max));
    }
    let index_offset = d.len() as u64;
    d.extend_from_slice(b"IDXT");
    d.extend_from_slice(&(entries.len() as u32).to_le_bytes());
    for (sid, off, min, max) in &entries {
        d.extend_from_slice(&sid.to_le_bytes());
        d.extend_from_slice(&off.to_le_bytes());
        d.extend_from_slice(&min.to_le_bytes());
        d.extend_from_slice(&max.to_le_bytes());
    }
    d.extend_from_slice(b"FTER");
    d.extend_from_slice(&index_offset.to_le_bytes());
    d
}

fn open(data: Vec<u8>) -> Result<PltxReader, PltxError> {
    PltxReader::open("test.pltx".to_string(), data)
}

fn bits(vs: &[f64]) -> Vec<u64> {
    vs.iter().map(|v| v.to_bits()).collect()
}

fn temperature_file(compression: u8) -> Vec<u8> {
    build_file(
        compression,
        &[(7, "temperature", "C", "", "")],
        &[(7, vec![(0.0, 1.0), (1.0, 2.0)]), (7, vec![(2.0, 3.0)])],
    )
}

// ---------- scenarios ----------

#[test]
fn empty_file_lists_nothing() {
    let r = open(build_file(0, &[], &[])).unwrap();
    assert_eq!(r.list_signals(), vec![]);
    let err = r.read_signal_all(0).unwrap_err();
    match err {
        PltxError::SignalNotFound(s) => assert_eq!(s, "0"),
        other => panic!("expected SignalNotFound, got {:?}", other),
    }
}

#[test]
fn two_chunks_read_whole_signal() {
    let r = open(temperature_file(0)).unwrap();
    let all = r.read_signal_all(7).unwrap();
    assert_eq!(all.timestamps, bits(&[0.0, 1.0, 2.0]));
    assert_eq!(all.values, bits(&[1.0, 2.0, 3.0]));

    let chunks = r.read_signal_chunks(7).unwrap();
    assert_eq!(chunks.len(), 2);
    assert_eq!(chunks[0].len(), 2);
    assert_eq!(chunks[1].len(), 1);

    let range = r.read_time_range(7, 0.5f64.to_bits(), 2.5f64.to_bits()).unwrap();
    assert_eq!(range.timestamps, bits(&[1.0, 2.0]));
    assert_eq!(range.values, bits(&[2.0, 3.0]));
}

#[test]
fn zlib_compressed_reads_identically() {
    let r = open(temperature_file(1)).unwrap();
    let all = r.read_signal_all(7).unwrap();
    assert_eq!(all.timestamps, bits(&[0.0, 1.0, 2.0]));
    assert_eq!(all.values, bits(&[1.0, 2.0, 3.0]));

    let chunks = r.read_signal_chunks(7).unwrap();
    assert_eq!(chunks.len(), 2);
    assert_eq!(chunks[0].len(), 2);
    assert_eq!(chunks[1].len(), 1);

    let range = r.read_time_range(7, 0.5f64.to_bits(), 2.5f64.to_bits()).unwrap();
    assert_eq!(range.timestamps, bits(&[1.0, 2.0]));
    assert_eq!(range.values, bits(&[2.0, 3.0]));
}

#[test]
fn lz4_compressed_reads_identically() {
    let r = open(temperature_file(2)).unwrap();
    let all = r.read_signal_all(7).unwrap();
    assert_eq!(all.timestamps, bits(&[0.0, 1.0, 2.0]));
    assert_eq!(all.values, bits(&[1.0, 2.0, 3.0]));
}

#[test]
fn zstd_compressed_reads_identically() {
    let r = open(temperature_file(3)).unwrap();
    let all = r.read_signal_all(7).unwrap();
    assert_eq!(all.timestamps, bits(&[0.0, 1.0, 2.0]));
    assert_eq!(all.values, bits(&[1.0, 2.0, 3.0]));
}

#[test]
fn interleaved_signals_keep_per_signal_order() {
    let file = build_file(
        0,
        &[(1, "a", "", "", ""), (2, "b", "", "", "")],
        &[
            (1, vec![(0.0, 10.0)]),
            (2, vec![(0.0, 20.0)]),
            (1, vec![(1.0, 11.0)]),
            (2, vec![(1.0, 21.0)]),
        ],
    );
    let r = open(file).unwrap();
    let c1 = r.read_signal_chunks(1).unwrap();
    let c2 = r.read_signal_chunks(2).unwrap();
    assert_eq!(c1.len(), 2);
    assert_eq!(c2.len(), 2);
    assert_eq!(c1[0].values, bits(&[10.0]));
    assert_eq!(c1[1].values, bits(&[11.0]));
    assert_eq!(c2[0].values, bits(&[20.0]));
    assert_eq!(c2[1].values, bits(&[21.0]));
}

#[test]
fn footer_pointing_at_non_index_fails() {
    let mut file = build_file(0, &[(7, "t", "", "", "")], &[(7, vec![(0.0, 1.0)])]);
    // Redirect the footer's index offset to position 0, which holds "PLTX".
    let n = file.len();
    file[n - 8..].copy_from_slice(&0u64.to_le_bytes());
    let err = open(file).unwrap_err();
    match err {
        PltxError::InvalidMagic { expected, got } => {
            assert_eq!(expected, b"IDXT".to_vec());
            assert_eq!(got, b"PLTX".to_vec());
        }
        other => panic!("expected InvalidMagic, got {:?}", other),
    }
}

#[test]
fn raw_length_mismatch_is_corrupted_data() {
    // One record (16 bytes) but a header that declares raw_length = 32.
    let mut file = build_file(0, &[(7, "t", "", "", "")], &[(7, vec![(0.0, 1.0)])]);
    let chunk_off = header_bytes(0, &[(7, "t", "", "", "")]).len();
    let raw_len_pos = chunk_off + 12;
    file[raw_len_pos..raw_len_pos + 4].copy_from_slice(&32u32.to_le_bytes());
    let r = open(file).unwrap();
    let err = r.read_signal_all(7).unwrap_err();
    match err {
        PltxError::CorruptedData(msg) => {
            assert!(msg.contains("32"), "message should name the expected count: {}", msg);
            assert!(msg.contains("16"), "message should name the actual count: {}", msg);
        }
        other => panic!("expected CorruptedData, got {:?}", other),
    }
}

// ---------- magic invariance ----------

#[test]
fn mutated_file_magic_is_reported() {
    let mut file = temperature_file(0);
    file[0] = b'Q';
    let err = open(file).unwrap_err();
    match err {
        PltxError::InvalidMagic { expected, got } => {
            assert_eq!(expected, b"PLTX".to_vec());
            assert_eq!(got, b"QLTX".to_vec());
        }
        other => panic!("expected InvalidMagic, got {:?}", other),
    }
}

#[test]
fn mutated_footer_magic_is_reported() {
    let mut file = temperature_file(0);
    let n = file.len();
    file[n - 12] = b'X';
    let err = open(file).unwrap_err();
    match err {
        PltxError::InvalidMagic { expected, got } => {
            assert_eq!(expected, b"FTER".to_vec());
            assert_eq!(got, b"XTER".to_vec());
        }
        other => panic!("expected InvalidMagic, got {:?}", other),
    }
}

#[test]
fn mutated_index_magic_is_reported() {
    let mut file = temperature_file(0);
    let n = file.len();
    let index_offset = u64::from_le_bytes(file[n - 8..].try_into().unwrap()) as usize;
    file[index_offset] = b'J';
    let err = open(file).unwrap_err();
    match err {
        PltxError::InvalidMagic { expected, got } => {
            assert_eq!(expected, b"IDXT".to_vec());
            assert_eq!(got, b"JDXT".to_vec());
        }
        other => panic!("expected InvalidMagic, got {:?}", other),
    }
}

#[test]
fn mutated_chunk_magic_fails_only_the_read() {
    let mut file = temperature_file(0);
    let chunk_off = header_bytes(0, &[(7, "temperature", "C", "", "")]).len();
    file[chunk_off] = b'X';
    // Chunks are not touched by open, so the mutation surfaces at the query,
    // as corrupted data.
    let r = open(file).unwrap();
    let err = r.read_signal_all(7).unwrap_err();
    assert!(matches!(err, PltxError::CorruptedData(_)), "got {:?}", err);
}

// ---------- metadata ----------

#[test]
fn metadata_consistency_on_listing() {
    let file = build_file(
        0,
        &[(9, "humidity", "%", "rel", "probe"), (3, "pressure", "hPa", "", "")],
        &[],
    );
    let r = open(file).unwrap();
    let listed = r.list_signals();
    assert_eq!(
        listed,
        vec![(3, "pressure".to_string()), (9, "humidity".to_string())],
        "ids are listed ascending"
    );
    for (id, name) in listed {
        let meta = r.get_signal_metadata(id).expect("listed id resolves");
        assert_eq!(meta.name, name);
        assert_eq!(r.get_signal_id_by_name(&name), Some(id));
    }
    assert!(r.get_signal_metadata(1).is_none());
    assert_eq!(r.get_signal_id_by_name("none such"), None);
    let humidity = r.get_signal_metadata(9).unwrap();
    assert_eq!(humidity.unit, "%");
    assert_eq!(humidity.description, "rel");
    assert_eq!(humidity.source, "probe");
}

#[test]
fn duplicate_signal_id_last_wins() {
    let file = build_file(0, &[(5, "first", "", "", ""), (5, "second", "", "", "")], &[]);
    let r = open(file).unwrap();
    assert_eq!(r.list_signals(), vec![(5, "second".to_string())]);
    assert_eq!(r.get_signal_metadata(5).unwrap().name, "second");
}

#[test]
fn non_ascii_names_survive() {
    let file = build_file(0, &[(1, "túy lưu lượng", "m³/s", "", "")], &[]);
    let r = open(file).unwrap();
    assert_eq!(r.get_signal_metadata(1).unwrap().name, "túy lưu lượng");
    assert_eq!(r.get_signal_id_by_name("túy lưu lượng"), Some(1));
}

// ---------- error variants ----------

#[test]
fn unknown_compression_tag_blocks_reads_not_metadata() {
    let file = build_file(9, &[(7, "t", "", "", "")], &[(7, vec![(0.0, 1.0)])]);
    let r = open(file).unwrap();
    // The header parser leaves the compression byte unvalidated.
    assert_eq!(r.list_signals(), vec![(7, "t".to_string())]);
    let err = r.read_signal_all(7).unwrap_err();
    assert!(matches!(err, PltxError::UnsupportedCompression(9)), "got {:?}", err);
    let err = r.read_signal_chunks(7).unwrap_err();
    assert!(matches!(err, PltxError::UnsupportedCompression(9)), "got {:?}", err);
}

#[test]
fn invalid_utf8_name_fails_open() {
    let mut d = Vec::new();
    d.extend_from_slice(b"PLTX");
    d.push(2);
    d.push(0);
    d.extend_from_slice(&0.0f64.to_le_bytes());
    d.extend_from_slice(&1u16.to_le_bytes());
    d.extend_from_slice(&1u32.to_le_bytes());
    d.extend_from_slice(&2u16.to_le_bytes());
    d.extend_from_slice(&[0xFF, 0xFE]); // not UTF-8
    for _ in 0..3 {
        d.extend_from_slice(&0u16.to_le_bytes());
    }
    let err = open(d).unwrap_err();
    assert!(matches!(err, PltxError::InvalidUtf8), "got {:?}", err);
}

#[test]
fn truncated_file_is_io() {
    let err = open(b"PLTX\x02\x00".to_vec()).unwrap_err();
    assert!(matches!(err, PltxError::Io(_)), "got {:?}", err);
}

#[test]
fn string_overrunning_file_is_corrupted_data() {
    let mut d = Vec::new();
    d.extend_from_slice(b"PLTX");
    d.push(2);
    d.push(0);
    d.extend_from_slice(&0.0f64.to_le_bytes());
    d.extend_from_slice(&1u16.to_le_bytes());
    d.extend_from_slice(&1u32.to_le_bytes());
    d.extend_from_slice(&400u16.to_le_bytes()); // name claims 400 bytes
    d.extend_from_slice(b"ab");
    let err = open(d).unwrap_err();
    assert!(matches!(err, PltxError::CorruptedData(_)), "got {:?}", err);
}

#[test]
fn garbage_zlib_chunk_is_decompression_failed() {
    let mut file = build_file(1, &[(7, "t", "", "", "")], &[(7, vec![(0.0, 1.0)])]);
    // Corrupt the compressed payload in place.
    let chunk_off = header_bytes(1, &[(7, "t", "", "", "")]).len();
    let payload = chunk_off + 36;
    file[payload] ^= 0xAA;
    file[payload + 1] ^= 0xAA;
    let r = open(file).unwrap();
    let err = r.read_signal_all(7).unwrap_err();
    assert!(matches!(err, PltxError::DecompressionFailed(_)), "got {:?}", err);
}

// ---------- query laws on concrete files ----------

#[test]
fn whole_read_equals_flattened_chunks() {
    let r = open(temperature_file(1)).unwrap();
    let all = r.read_signal_all(7).unwrap();
    let chunks = r.read_signal_chunks(7).unwrap();
    let mut ts = Vec::new();
    let mut vs = Vec::new();
    for c in &chunks {
        assert_eq!(c.timestamps.len(), c.values.len(), "length coupling");
        ts.extend_from_slice(&c.timestamps);
        vs.extend_from_slice(&c.values);
    }
    assert_eq!(all.timestamps.len(), all.values.len(), "length coupling");
    assert_eq!(all.timestamps, ts);
    assert_eq!(all.values, vs);
}

#[test]
fn time_range_is_the_filter_of_the_whole_read() {
    let file = build_file(
        0,
        &[(4, "s", "", "", "")],
        &[
            (4, vec![(-2.5, 1.0), (-1.0, 2.0)]),
            (4, vec![(0.5, 3.0), (4.0, 4.0)]),
        ],
    );
    let r = open(file).unwrap();
    let (lo, hi) = ((-2.0f64).to_bits(), 0.75f64.to_bits());
    let range = r.read_time_range(4, lo, hi).unwrap();
    assert_eq!(range.timestamps, bits(&[-1.0, 0.5]));
    assert_eq!(range.values, bits(&[2.0, 3.0]));

    let all = r.read_signal_all(4).unwrap();
    let mut expect_ts = Vec::new();
    let mut expect_vs = Vec::new();
    for (t, v) in all.timestamps.iter().zip(all.values.iter()) {
        let tf = f64::from_bits(*t);
        if (-2.0..=0.75).contains(&tf) {
            expect_ts.push(*t);
            expect_vs.push(*v);
        }
    }
    assert_eq!(range.timestamps, expect_ts);
    assert_eq!(range.values, expect_vs);
}

#[test]
fn empty_range_is_empty_not_an_error() {
    let r = open(temperature_file(0)).unwrap();
    let range = r.read_time_range(7, 2.0f64.to_bits(), 1.0f64.to_bits()).unwrap();
    assert!(range.is_empty());
    assert_eq!(range.len(), 0);
}

#[test]
fn nan_timestamps_match_no_range() {
    let file = build_file(0, &[(4, "s", "", "", "")], &[(4, vec![(f64::NAN, 1.0), (1.0, 2.0)])]);
    let r = open(file).unwrap();
    let range = r.read_time_range(4, f64::NEG_INFINITY.to_bits(), f64::INFINITY.to_bits()).unwrap();
    assert_eq!(range.timestamps, bits(&[1.0]));
    assert_eq!(range.values, bits(&[2.0]));
}

#[test]
fn pruned_chunks_are_never_read() {
    // Chunk A covers [0,1] and is made undecodable; a query over [2, 3]
    // prunes A by its advertised bounds and still answers from chunk B.
    let mut file = build_file(
        1,
        &[(7, "t", "", "", "")],
        &[(7, vec![(0.0, 1.0), (1.0, 2.0)]), (7, vec![(2.0, 3.0)])],
    );
    let chunk_off = header_bytes(1, &[(7, "t", "", "", "")]).len();
    let payload = chunk_off + 36;
    file[payload] ^= 0xAA;
    file[payload + 1] ^= 0xAA;
    let r = open(file).unwrap();
    let range = r.read_time_range(7, 2.0f64.to_bits(), 3.0f64.to_bits()).unwrap();
    assert_eq!(range.timestamps, bits(&[2.0]));
    assert_eq!(range.values, bits(&[3.0]));
    // Without pruning, the same chunk makes the whole-signal read fail.
    assert!(r.read_signal_all(7).is_err());
}

#[test]
fn records_keep_on_disk_order_without_sorting() {
    let file = build_file(
        0,
        &[(4, "s", "", "", "")],
        &[(4, vec![(5.0, 1.0), (2.0, 2.0), (9.0, 3.0)])],
    );
    let r = open(file).unwrap();
    let all = r.read_signal_all(4).unwrap();
    assert_eq!(all.timestamps, bits(&[5.0, 2.0, 9.0]));
    let range = r.read_time_range(4, 0.0f64.to_bits(), 10.0f64.to_bits()).unwrap();
    assert_eq!(range.timestamps, bits(&[5.0, 2.0, 9.0]));
}

#[test]
fn signal_not_found_names_the_id() {
    let r = open(temperature_file(0)).unwrap();
    match r.read_signal_all(4242).unwrap_err() {
        PltxError::SignalNotFound(s) => assert_eq!(s, "4242"),
        other => panic!("expected SignalNotFound, got {:?}", other),
    }
    match r.read_time_range(1, 0.0f64.to_bits(), 1.0f64.to_bits()).unwrap_err() {
        PltxError::SignalNotFound(s) => assert_eq!(s, "1"),
        other => panic!("expected SignalNotFound, got {:?}", other),
    }
}

#[test]
fn header_fields_are_kept() {
    let r = open(temperature_file(1)).unwrap();
    assert_eq!(r.header.version, 2);
    assert_eq!(r.header.compression, 1);
    assert_eq!(r.header.created, 0.0f64.to_bits());
}

#[test]
fn repeated_queries_answer_alike() {
    // The reader is immutable after open, so any sequence of queries over a
    // shared handle answers as each would alone.
    let r = open(temperature_file(0)).unwrap();
    let a1 = r.read_signal_all(7).unwrap();
    let c = r.read_signal_chunks(7).unwrap();
    let t = r.read_time_range(7, 0.0f64.to_bits(), 1.0f64.to_bits()).unwrap();
    let a2 = r.read_signal_all(7).unwrap();
    assert_eq!(a1.timestamps, a2.timestamps);
    assert_eq!(a1.values, a2.values);
    assert_eq!(c.len(), 2);
    assert_eq!(t.timestamps, bits(&[0.0, 1.0]));
}
