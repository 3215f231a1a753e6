use kafui::ingest::{apply_record, IngestPhase};
use kafui::model::{OffsetAndMetadata, OffsetValue};
use kafui::store::OffsetStore;

fn offset_key(group: &str, topic: &str, partition: i32) -> OffsetAndMetadata {
    OffsetAndMetadata::OffsetKey {
        group: String::from(group),
        topic: String::from(topic),
        partition,
    }
}

fn push_str(out: &mut Vec<u8>, s: &str) {
    out.extend_from_slice(&(s.len() as i16).to_be_bytes());
    out.extend_from_slice(s.as_bytes());
}

fn key_bytes(group: &str, topic: &str, partition: i32) -> Vec<u8> {
    let mut b = Vec::new();
    b.extend_from_slice(&1i16.to_be_bytes());
    push_str(&mut b, group);
    push_str(&mut b, topic);
    b.extend_from_slice(&partition.to_be_bytes());
    b
}

fn value_bytes(offset: i64) -> Vec<u8> {
    let mut b = Vec::new();
    b.extend_from_slice(&1i16.to_be_bytes());
    b.extend_from_slice(&offset.to_be_bytes());
    b
}

#[test]
fn last_value_wins_for_one_key() {
    let mut store = OffsetStore::new();
    store.insert(offset_key("g", "t", 0), OffsetValue { offset: 10 });
    store.insert(offset_key("g", "t", 0), OffsetValue { offset: 42 });
    let got = store.get(&offset_key("g", "t", 0)).unwrap();
    assert_eq!(got.offset, 42);
}

#[test]
fn distinct_keys_do_not_collide() {
    let mut store = OffsetStore::new();
    store.insert(offset_key("g", "t", 0), OffsetValue { offset: 1 });
    store.insert(offset_key("g", "t", 1), OffsetValue { offset: 2 });
    store.insert(offset_key("g", "u", 0), OffsetValue { offset: 3 });
    store.insert(offset_key("h", "t", 0), OffsetValue { offset: 4 });
    let meta = OffsetAndMetadata::GroupMetadataKey { group: String::from("g") };
    store.insert(meta, OffsetValue { offset: 5 });
    assert_eq!(store.get(&offset_key("g", "t", 0)).unwrap().offset, 1);
    assert_eq!(store.get(&offset_key("g", "t", 1)).unwrap().offset, 2);
    assert_eq!(store.get(&offset_key("g", "u", 0)).unwrap().offset, 3);
    assert_eq!(store.get(&offset_key("h", "t", 0)).unwrap().offset, 4);
    assert!(store.get(&offset_key("g", "t", 2)).is_none());
}

#[test]
fn variant_tag_is_part_of_the_key() {
    let mut store = OffsetStore::new();
    let meta = OffsetAndMetadata::GroupMetadataKey { group: String::from("g") };
    store.insert(meta, OffsetValue { offset: 9 });
    // An offset key with the same group is a different key.
    assert!(store.get(&offset_key("g", "", 0)).is_none());
}

#[test]
fn snapshot_is_consistent_at_the_point_of_the_call() {
    let mut store = OffsetStore::new();
    store.insert(offset_key("g", "t", 0), OffsetValue { offset: 5 });
    let snap = store.snapshot();
    store.insert(offset_key("g", "t", 0), OffsetValue { offset: 99 });
    store.insert(offset_key("g", "t", 1), OffsetValue { offset: 1 });
    assert_eq!(snap.get(&offset_key("g", "t", 0)).unwrap().offset, 5);
    assert!(snap.get(&offset_key("g", "t", 1)).is_none());
    assert_eq!(store.get(&offset_key("g", "t", 0)).unwrap().offset, 99);
}

#[test]
fn malformed_record_is_isolated() {
    let mut store = OffsetStore::new();
    // A malformed record for the same key: its value bytes are too short.
    let inserted_bad = apply_record(&mut store, &key_bytes("g1", "t", 0), &[0x00]);
    assert!(!inserted_bad);
    assert!(store.get(&offset_key("g1", "t", 0)).is_none());
    // A well-formed record afterwards lands untouched by the bad one.
    let inserted_good = apply_record(&mut store, &key_bytes("g1", "t", 0), &value_bytes(17));
    assert!(inserted_good);
    assert_eq!(store.get(&offset_key("g1", "t", 0)).unwrap().offset, 17);
}

#[test]
fn empty_key_and_value_records_are_dropped() {
    let mut store = OffsetStore::new();
    assert!(!apply_record(&mut store, &[], &value_bytes(1)));
    assert!(!apply_record(&mut store, &key_bytes("g", "t", 0), &[]));
    assert!(!apply_record(&mut store, &[], &[]));
    assert!(store.get(&offset_key("g", "t", 0)).is_none());
}

#[test]
fn group_metadata_records_are_not_stored() {
    let mut store = OffsetStore::new();
    let mut b = Vec::new();
    b.extend_from_slice(&2i16.to_be_bytes()); // version 2: metadata key
    push_str(&mut b, "g");
    let inserted = apply_record(&mut store, &b, &value_bytes(8));
    assert!(!inserted);
    assert!(store.get(&offset_key("g", "", 0)).is_none());
}

#[test]
fn record_replaces_earlier_commit_in_log_order() {
    let mut store = OffsetStore::new();
    assert!(apply_record(&mut store, &key_bytes("g", "t", 2), &value_bytes(5)));
    assert!(apply_record(&mut store, &key_bytes("g", "t", 2), &value_bytes(6)));
    assert_eq!(store.get(&offset_key("g", "t", 2)).unwrap().offset, 6);
}

#[test]
fn ingestion_enters_streaming_once_subscribed() {
    let phase = IngestPhase::Subscribing;
    assert!(matches!(phase.on_subscribed(), IngestPhase::Streaming));
}
