use kafui::model::{MemberAssignment, OffsetAndMetadata};
use kafui::wire::{decode_assignment, decode_commit_key, decode_commit_value, decode_string,
    encode_assignment, DecodeError};

fn push_str(out: &mut Vec<u8>, s: &str) {
    out.extend_from_slice(&(s.len() as i16).to_be_bytes());
    out.extend_from_slice(s.as_bytes());
}

fn commit_key_bytes(version: i16, group: &str, topic: &str, partition: i32) -> Vec<u8> {
    let mut b = Vec::new();
    b.extend_from_slice(&version.to_be_bytes());
    push_str(&mut b, group);
    push_str(&mut b, topic);
    b.extend_from_slice(&partition.to_be_bytes());
    b
}

#[test]
fn commit_key_version_zero_has_all_fields() {
    let b = commit_key_bytes(0, "billing", "payments", 12);
    match decode_commit_key(&b).unwrap() {
        OffsetAndMetadata::OffsetKey { group, topic, partition } => {
            assert_eq!(group, "billing");
            assert_eq!(topic, "payments");
            assert_eq!(partition, 12);
        }
        _ => panic!("expected an offset key"),
    }
}

#[test]
fn commit_key_version_one_has_all_fields() {
    let b = commit_key_bytes(1, "g1", "t", 0);
    match decode_commit_key(&b).unwrap() {
        OffsetAndMetadata::OffsetKey { group, topic, partition } => {
            assert_eq!(group, "g1");
            assert_eq!(topic, "t");
            assert_eq!(partition, 0);
        }
        _ => panic!("expected an offset key"),
    }
}

#[test]
fn commit_key_version_two_is_metadata_and_ignores_rest() {
    let mut b = Vec::new();
    b.extend_from_slice(&2i16.to_be_bytes());
    push_str(&mut b, "g2");
    // Whatever would stand where topic and partition do is never read.
    b.extend_from_slice(&[0xFF, 0xFF, 0x00]);
    match decode_commit_key(&b).unwrap() {
        OffsetAndMetadata::GroupMetadataKey { group } => assert_eq!(group, "g2"),
        _ => panic!("expected a group-metadata key"),
    }
}

#[test]
fn commit_key_empty_strings_decode() {
    let b = commit_key_bytes(1, "", "", 0);
    match decode_commit_key(&b).unwrap() {
        OffsetAndMetadata::OffsetKey { group, topic, partition } => {
            assert_eq!(group, "");
            assert_eq!(topic, "");
            assert_eq!(partition, 0);
        }
        _ => panic!("expected an offset key"),
    }
}

#[test]
fn commit_key_trailing_bytes_are_ignored() {
    let mut b = commit_key_bytes(1, "g", "t", 3);
    b.extend_from_slice(&[1, 2, 3, 4]);
    match decode_commit_key(&b).unwrap() {
        OffsetAndMetadata::OffsetKey { partition, .. } => assert_eq!(partition, 3),
        _ => panic!("expected an offset key"),
    }
}

#[test]
fn commit_key_non_ascii_group_round_trips() {
    let b = commit_key_bytes(0, "groupe-é", "thème", -1);
    match decode_commit_key(&b).unwrap() {
        OffsetAndMetadata::OffsetKey { group, topic, partition } => {
            assert_eq!(group, "groupe-é");
            assert_eq!(topic, "thème");
            assert_eq!(partition, -1);
        }
        _ => panic!("expected an offset key"),
    }
}

#[test]
fn commit_key_short_buffers_are_truncated_input() {
    for n in 0..4 {
        let b = vec![0u8; n];
        assert_eq!(decode_commit_key(&b).unwrap_err(), DecodeError::TruncatedInput);
    }
    // Version present, group declared longer than the buffer.
    let mut b = Vec::new();
    b.extend_from_slice(&1i16.to_be_bytes());
    b.extend_from_slice(&5i16.to_be_bytes());
    b.extend_from_slice(b"ab");
    assert_eq!(decode_commit_key(&b).unwrap_err(), DecodeError::TruncatedInput);
}

#[test]
fn negative_string_length_is_truncated_input() {
    let mut b = Vec::new();
    b.extend_from_slice(&1i16.to_be_bytes());
    b.extend_from_slice(&(-1i16).to_be_bytes());
    b.extend_from_slice(b"abcdef");
    assert_eq!(decode_commit_key(&b).unwrap_err(), DecodeError::TruncatedInput);
}

#[test]
fn invalid_utf8_is_invalid_encoding() {
    let mut b = Vec::new();
    b.extend_from_slice(&1i16.to_be_bytes());
    b.extend_from_slice(&2i16.to_be_bytes());
    b.extend_from_slice(&[0xC3, 0x28]); // a malformed two-byte sequence
    assert_eq!(decode_commit_key(&b).unwrap_err(), DecodeError::InvalidEncoding);
}

#[test]
fn decode_string_reads_prefix_and_bytes() {
    let mut b = vec![0xAAu8]; // one byte of padding before the string
    push_str(&mut b, "hello");
    let (s, next) = decode_string(&b, 1).unwrap();
    assert_eq!(s, "hello");
    assert_eq!(next, b.len());
    assert_eq!(decode_string(&[0u8; 1], 0).unwrap_err(), DecodeError::TruncatedInput);
}

#[test]
fn commit_value_reads_offset_and_ignores_metadata() {
    let mut b = Vec::new();
    b.extend_from_slice(&3i16.to_be_bytes());
    b.extend_from_slice(&1234567890123i64.to_be_bytes());
    // Metadata string and timestamp of the source record: not decoded.
    push_str(&mut b, "meta");
    b.extend_from_slice(&99i64.to_be_bytes());
    assert_eq!(decode_commit_value(&b).unwrap().offset, 1234567890123);
}

#[test]
fn commit_value_negative_offset_is_kept() {
    let mut b = Vec::new();
    b.extend_from_slice(&0i16.to_be_bytes());
    b.extend_from_slice(&(-7i64).to_be_bytes());
    assert_eq!(decode_commit_value(&b).unwrap().offset, -7);
}

#[test]
fn commit_value_short_buffers_are_truncated_input() {
    for n in 0..10 {
        let b = vec![0u8; n];
        assert_eq!(decode_commit_value(&b).unwrap_err(), DecodeError::TruncatedInput);
    }
}

fn assignment_bytes(version: i16, entries: &[(&str, &[i32])]) -> Vec<u8> {
    let mut b = Vec::new();
    b.extend_from_slice(&version.to_be_bytes());
    b.extend_from_slice(&(entries.len() as i32).to_be_bytes());
    for (topic, parts) in entries {
        push_str(&mut b, topic);
        b.extend_from_slice(&(parts.len() as i32).to_be_bytes());
        for p in *parts {
            b.extend_from_slice(&p.to_be_bytes());
        }
    }
    b
}

#[test]
fn assignment_decodes_topics_and_partitions_in_order() {
    let b = assignment_bytes(1, &[("alpha", &[2, 0, 2]), ("beta", &[5])]);
    let v = decode_assignment(&b).unwrap();
    assert_eq!(v.len(), 2);
    assert_eq!(v[0].topic, "alpha");
    assert_eq!(v[0].partitions, vec![2, 0, 2]); // repeats kept, order kept
    assert_eq!(v[1].topic, "beta");
    assert_eq!(v[1].partitions, vec![5]);
}

#[test]
fn assignment_negative_count_is_truncated_input() {
    let mut b = Vec::new();
    b.extend_from_slice(&0i16.to_be_bytes());
    b.extend_from_slice(&(-3i32).to_be_bytes());
    assert_eq!(decode_assignment(&b).unwrap_err(), DecodeError::TruncatedInput);
}

#[test]
fn negative_partition_count_is_truncated_input() {
    let mut b = Vec::new();
    b.extend_from_slice(&0i16.to_be_bytes());
    b.extend_from_slice(&1i32.to_be_bytes());
    push_str(&mut b, "t");
    b.extend_from_slice(&(-2i32).to_be_bytes());
    assert_eq!(decode_assignment(&b).unwrap_err(), DecodeError::TruncatedInput);
}

#[test]
fn assignment_zero_counts_decode_to_empty() {
    let b = assignment_bytes(0, &[]);
    assert!(decode_assignment(&b).unwrap().is_empty());
    let b = assignment_bytes(0, &[("t", &[])]);
    let v = decode_assignment(&b).unwrap();
    assert_eq!(v.len(), 1);
    assert!(v[0].partitions.is_empty());
}

#[test]
fn assignment_count_beyond_buffer_is_truncated_input() {
    let mut b = Vec::new();
    b.extend_from_slice(&0i16.to_be_bytes());
    b.extend_from_slice(&2i32.to_be_bytes());
    push_str(&mut b, "only");
    b.extend_from_slice(&0i32.to_be_bytes());
    // The second declared entry is missing entirely.
    assert_eq!(decode_assignment(&b).unwrap_err(), DecodeError::TruncatedInput);
}

#[test]
fn assignment_partition_count_beyond_buffer_is_truncated_input() {
    let mut b = Vec::new();
    b.extend_from_slice(&0i16.to_be_bytes());
    b.extend_from_slice(&1i32.to_be_bytes());
    push_str(&mut b, "t");
    b.extend_from_slice(&3i32.to_be_bytes());
    b.extend_from_slice(&1i32.to_be_bytes()); // only one of three ids present
    assert_eq!(decode_assignment(&b).unwrap_err(), DecodeError::TruncatedInput);
}

#[test]
fn assignment_short_buffers_are_truncated_input() {
    for n in 0..6 {
        let b = vec![0u8; n];
        assert_eq!(decode_assignment(&b).unwrap_err(), DecodeError::TruncatedInput);
    }
}

#[test]
fn assignment_round_trip_two_topics_two_partitions() {
    let input = vec![
        MemberAssignment { topic: String::from("orders"), partitions: vec![0, 1] },
        MemberAssignment { topic: String::from("invoices"), partitions: vec![7, 3] },
    ];
    let encoded = encode_assignment(0, &input).unwrap();
    let decoded = decode_assignment(&encoded).unwrap();
    assert_eq!(decoded.len(), 2);
    assert_eq!(decoded[0].topic, "orders");
    assert_eq!(decoded[0].partitions, vec![0, 1]);
    assert_eq!(decoded[1].topic, "invoices");
    assert_eq!(decoded[1].partitions, vec![7, 3]);
}

#[test]
fn assignment_round_trip_matches_hand_built_bytes() {
    let input = vec![
        MemberAssignment { topic: String::from("a"), partitions: vec![1, 2] },
        MemberAssignment { topic: String::from("b"), partitions: vec![] },
    ];
    let encoded = encode_assignment(3, &input).unwrap();
    let expected = assignment_bytes(3, &[("a", &[1, 2]), ("b", &[])]);
    assert_eq!(encoded, expected);
}

#[test]
fn encode_assignment_refuses_oversized_topic() {
    let long_topic: String = "x".repeat(40000);
    let input = vec![MemberAssignment { topic: long_topic, partitions: vec![1] }];
    assert!(encode_assignment(0, &input).is_none());
}
