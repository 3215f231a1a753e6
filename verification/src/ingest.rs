//! The ingestion step: what one raw record from the commit log does to
//! the offset store. The surrounding long-running loop only fetches
//! records and hands their bytes here.

use crate::model::{CommitKeyView, OffsetAndMetadata, OffsetValue};
use crate::store::OffsetStore;
use crate::wire::{
    decode_commit_key, decode_commit_value, spec_decode_commit_key, spec_decode_commit_value,
};
use vstd::prelude::*;

verus! {

/// The two phases of the ingestion process: waiting for the
/// subscription to the commit log, then streaming records until the
/// process exits.
pub enum IngestPhase {
    Subscribing,
    Streaming,
}

impl IngestPhase {
    /// The phase entered once the subscription stands.
    pub fn on_subscribed(self) -> (r: IngestPhase)
        ensures
            r is Streaming,
    {
        IngestPhase::Streaming
    }
}

/// Whether one raw record is stored: both its key and its value must
/// decode, and the key must be a partition commit.
pub open spec fn record_stored(key_bytes: Seq<u8>, value_bytes: Seq<u8>) -> bool {
    &&& spec_decode_commit_key(key_bytes) matches Ok(k) && k is OffsetKey
    &&& spec_decode_commit_value(value_bytes) is Ok
}

/// What one raw record does to the store's mapping: a decodable
/// partition-commit record replaces the value under its key; any other
/// record — a decode failure on either side, or a group-metadata key —
/// leaves the mapping untouched.
pub open spec fn spec_apply_record(
    m: Map<CommitKeyView, OffsetValue>,
    key_bytes: Seq<u8>,
    value_bytes: Seq<u8>,
) -> Map<CommitKeyView, OffsetValue> {
    if record_stored(key_bytes, value_bytes) {
        m.insert(
            spec_decode_commit_key(key_bytes)->Ok_0,
            OffsetValue { offset: spec_decode_commit_value(value_bytes)->Ok_0 },
        )
    } else {
        m
    }
}

/// Applies one raw record from the commit log to the store. Decode
/// failures are isolated to the record: they change nothing and stop
/// nothing. The result says whether the record was stored.
pub fn apply_record(store: &mut OffsetStore, key_bytes: &[u8], value_bytes: &[u8]) -> (inserted:
    bool)
    requires
        old(store).wf(),
    ensures
        final(store).wf(),
        final(store)@ == spec_apply_record(old(store)@, key_bytes@, value_bytes@),
        inserted == record_stored(key_bytes@, value_bytes@),
{
    let key = decode_commit_key(key_bytes);
    let value = decode_commit_value(value_bytes);
    match (key, value) {
        (Ok(k), Ok(v)) => match k {
            OffsetAndMetadata::OffsetKey { .. } => {
                store.insert(k, v);
                true
            },
            OffsetAndMetadata::GroupMetadataKey { .. } => false,
        },
        _ => false,
    }
}

/// Isolation of malformed records: a record that is not stored — a
/// decode failure on its key or value, or a group-metadata key —
/// leaves the mapping exactly as it was, and a stored record that
/// follows lands as if the unstored one had never arrived.
pub proof fn lemma_malformed_record_isolated(
    m: Map<CommitKeyView, OffsetValue>,
    bad_key: Seq<u8>,
    bad_value: Seq<u8>,
    good_key: Seq<u8>,
    good_value: Seq<u8>,
)
    requires
        !record_stored(bad_key, bad_value),
        record_stored(good_key, good_value),
    ensures
        spec_apply_record(m, bad_key, bad_value) == m,
        spec_apply_record(spec_apply_record(m, bad_key, bad_value), good_key, good_value)
            == spec_apply_record(m, good_key, good_value),
        spec_apply_record(spec_apply_record(m, bad_key, bad_value), good_key, good_value)
            == m.insert(
            spec_decode_commit_key(good_key)->Ok_0,
            OffsetValue { offset: spec_decode_commit_value(good_value)->Ok_0 },
        ),
{
}

} // verus!
