use flate2::write::ZlibEncoder;
use flate2::Compression;
use std::io::Write;
use pltx_reader::compression::decompress;
use pltx_reader::constants::{CHUNK_MAGIC, FOOTER_MAGIC, INDEX_MAGIC, MAGIC};
use pltx_reader::CompressionType;
use pltx_reader::PltxError;

#[test]
fn test_constants() {
    assert_eq!(&MAGIC, b"PLTX");
    assert_eq!(&CHUNK_MAGIC, b"CHNK");
}

#[test]
fn index_and_footer_magics() {
    assert_eq!(&INDEX_MAGIC, b"IDXT");
    assert_eq!(&FOOTER_MAGIC, b"FTER");
}

#[test]
fn test_decompress_none() {
    let data = b"hello world".to_vec();
    let result = decompress(&data, CompressionType::Uncompressed).unwrap();
    assert_eq!(result, data);
}

#[test]
fn test_decompress_zlib() {

    let original = b"hello world";
    let mut encoder = ZlibEncoder::new(Vec::new(), Compression::default());
    encoder.write_all(original).unwrap();
    let compressed = encoder.finish().unwrap();

    let decompressed = decompress(&compressed, CompressionType::Zlib).unwrap();
    assert_eq!(decompressed, original);
}

#[test]
fn decompress_lz4_round_trip() {
    let original = b"the quick brown fox jumps over the lazy dog".to_vec();
    let compressed = lz4::block::compress(&original, None, true).unwrap();
    let decompressed = decompress(&compressed, CompressionType::Lz4).unwrap();
    assert_eq!(decompressed, original);
}

#[test]
fn decompress_zstd_round_trip() {
    let original = b"the quick brown fox jumps over the lazy dog".to_vec();
    let compressed = zstd::encode_all(&original[..], 0).unwrap();
    let decompressed = decompress(&compressed, CompressionType::Zstd).unwrap();
    assert_eq!(decompressed, original);
}

#[test]
fn decompress_zlib_rejects_garbage() {
    let garbage = vec![0x01u8, 0x02, 0x03, 0x04];
    let err = decompress(&garbage, CompressionType::Zlib).unwrap_err();
    assert!(matches!(err, PltxError::DecompressionFailed(_)));
}

#[test]
fn compression_tags_decode() {
    assert_eq!(CompressionType::from_u8(0), Some(CompressionType::Uncompressed));
    assert_eq!(CompressionType::from_u8(1), Some(CompressionType::Zlib));
    assert_eq!(CompressionType::from_u8(2), Some(CompressionType::Lz4));
    assert_eq!(CompressionType::from_u8(3), Some(CompressionType::Zstd));
    assert_eq!(CompressionType::from_u8(4), None);
    assert_eq!(CompressionType::from_u8(255), None);
}
