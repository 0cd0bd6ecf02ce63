use pltx_reader::{SignalMetadata, TimeseriesChunk};

#[test]
fn metadata_new_leaves_other_fields_empty() {
    let m = SignalMetadata::new("flow".to_string());
    assert_eq!(m.name, "flow");
    assert_eq!(m.unit, "");
    assert_eq!(m.description, "");
    assert_eq!(m.source, "");
}

#[test]
fn chunk_constructors_start_empty() {
    let c = TimeseriesChunk::new();
    assert!(c.is_empty());
    assert_eq!(c.len(), 0);
    let c = TimeseriesChunk::with_capacity(16);
    assert!(c.is_empty());
    assert_eq!(c.timestamps.len(), c.values.len());
}
