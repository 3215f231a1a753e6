//! Data model for the commit-state viewer: consumer groups and their
//! members, topics and their partition watermarks, and the two record
//! shapes read off the internal commit log.

use vstd::prelude::*;
use vstd::string::StringSliceAdditionalSpecFns;

verus! {

/// An input handed to the view loop: a timer tick or one key press.
pub enum Event<K> {
    Tick,
    Input(K),
}

/// One topic and the partition ids a group member is assigned on it.
/// Partitions keep the order of the wire payload and may repeat.
#[derive(Debug)]
pub struct MemberAssignment {
    pub topic: String,
    pub partitions: Vec<i32>,
}

/// Mathematical image of a `MemberAssignment`.
pub struct AssignmentView {
    pub topic: Seq<char>,
    pub partitions: Seq<i32>,
}

impl View for MemberAssignment {
    type V = AssignmentView;

    open spec fn view(&self) -> AssignmentView {
        AssignmentView { topic: self.topic@, partitions: self.partitions@ }
    }
}

/// One member of a consumer group, with its decoded assignments.
pub struct GroupMember {
    pub id: String,
    pub client_id: String,
    pub client_host: String,
    pub assignments: Vec<MemberAssignment>,
}

/// Whether a member holds an assignment on the named topic.
pub open spec fn member_consumes(m: &GroupMember, topic: Seq<char>) -> bool {
    exists|i: int| 0 <= i < m.assignments@.len() && m.assignments@[i].topic@ == topic
}

impl GroupMember {
    /// True exactly when one of this member's assignments names `topic`.
    pub fn consume_topic(&self, topic: &str) -> (r: bool)
        ensures
            r == member_consumes(self, topic@),
    {
        let n = self.assignments.len();
        let mut i: usize = 0;
        while i < n
            invariant
                n == self.assignments@.len(),
                i <= n,
                forall|j: int| 0 <= j < i ==> self.assignments@[j].topic@ != topic@,
            decreases n - i,
        {
            if str_eq(self.assignments[i].topic.as_str(), topic) {
                return true;
            }
            i += 1;
        }
        false
    }
}

/// A consumer group as listed by the platform, with its members.
pub struct GroupInfo {
    pub name: String,
    pub state: String,
    pub members: Vec<GroupMember>,
}

/// Whether any member of the group holds an assignment on the named topic.
pub open spec fn group_consumes(g: &GroupInfo, topic: Seq<char>) -> bool {
    exists|i: int| 0 <= i < g.members@.len() && member_consumes(&g.members@[i], topic)
}

impl GroupInfo {
    /// True exactly when some member of this group consumes `topic`.
    pub fn consume_topic(&self, topic: &str) -> (r: bool)
        ensures
            r == group_consumes(self, topic@),
    {
        let n = self.members.len();
        let mut i: usize = 0;
        while i < n
            invariant
                n == self.members@.len(),
                i <= n,
                forall|j: int| 0 <= j < i ==> !member_consumes(&self.members@[j], topic@),
            decreases n - i,
        {
            if self.members[i].consume_topic(topic) {
                return true;
            }
            i += 1;
        }
        false
    }
}

/// Watermarks and leadership for one partition, as supplied by the
/// metadata client; `count` is `high - low`.
pub struct PartitionOffsets {
    pub low: i64,
    pub high: i64,
    pub count: i64,
    pub id: i32,
    pub leader: i32,
}

/// A topic's name and partition count.
pub struct TopicInfo {
    pub name: String,
    pub nb_partitions: usize,
}

/// A topic with per-partition watermarks and the total message count.
pub struct TopicDetail {
    pub info: TopicInfo,
    pub message_count: i64,
    pub offsets: Vec<PartitionOffsets>,
}

/// Whether a value fits a signed 64-bit integer.
pub open spec fn fits_i64(x: int) -> bool {
    i64::MIN <= x <= i64::MAX
}

/// One partition's message count: high watermark minus low watermark.
/// The tuple is `(id, leader, low, high)`.
pub open spec fn spec_partition_count(w: (i32, i32, i64, i64)) -> int {
    w.3 - w.2
}

/// The sum of the message counts of the first `n` partitions.
pub open spec fn spec_message_count(ws: Seq<(i32, i32, i64, i64)>, n: int) -> int
    decreases n,
{
    if n <= 0 {
        0
    } else {
        spec_message_count(ws, n - 1) + spec_partition_count(ws[n - 1])
    }
}

/// Whether every partition's count and every running total fit `i64`.
pub open spec fn watermarks_fit(ws: Seq<(i32, i32, i64, i64)>) -> bool {
    forall|j: int|
        0 <= j < ws.len() ==> fits_i64(spec_partition_count(ws[j])) && fits_i64(
            spec_message_count(ws, j + 1),
        )
}

impl TopicDetail {
    /// Assembles a topic's detail from its name and one
    /// `(id, leader, low, high)` tuple per partition, deriving each
    /// partition's message count and the topic's total. Returns `None`
    /// exactly when a count or a running total would leave `i64`.
    pub fn from_watermarks(name: String, watermarks: &Vec<(i32, i32, i64, i64)>) -> (r: Option<
        TopicDetail,
    >)
        ensures
            r is Some <==> watermarks_fit(watermarks@),
            r matches Some(td) ==> {
                &&& td.info.name@ == name@
                &&& td.info.nb_partitions == watermarks@.len()
                &&& td.offsets@.len() == watermarks@.len()
                &&& forall|j: int|
                    0 <= j < watermarks@.len() ==> td.offsets@[j] == (PartitionOffsets {
                        id: watermarks@[j].0,
                        leader: watermarks@[j].1,
                        low: watermarks@[j].2,
                        high: watermarks@[j].3,
                        count: spec_partition_count(watermarks@[j]) as i64,
                    })
                &&& td.message_count as int == spec_message_count(
                    watermarks@,
                    watermarks@.len() as int,
                )
            },
    {
        let n = watermarks.len();
        let mut offsets: Vec<PartitionOffsets> = Vec::new();
        let mut message_count: i64 = 0;
        let mut j: usize = 0;
        while j < n
            invariant
                n == watermarks@.len(),
                j <= n,
                offsets@.len() == j,
                forall|k: int|
                    0 <= k < j ==> offsets@[k] == (PartitionOffsets {
                        id: watermarks@[k].0,
                        leader: watermarks@[k].1,
                        low: watermarks@[k].2,
                        high: watermarks@[k].3,
                        count: spec_partition_count(watermarks@[k]) as i64,
                    }),
                message_count as int == spec_message_count(watermarks@, j as int),
                forall|k: int|
                    0 <= k < j ==> fits_i64(spec_partition_count(watermarks@[k])) && fits_i64(
                        spec_message_count(watermarks@, k + 1),
                    ),
            decreases n - j,
        {
            let (id, leader, low, high) = watermarks[j];
            let count_wide: i128 = (high as i128) - (low as i128);
            if count_wide < (i64::MIN as i128) || count_wide > (i64::MAX as i128) {
                proof {
                    assert(!fits_i64(spec_partition_count(watermarks@[j as int])));
                }
                return None;
            }
            let count: i64 = count_wide as i64;
            let total_wide: i128 = (message_count as i128) + (count as i128);
            if total_wide < (i64::MIN as i128) || total_wide > (i64::MAX as i128) {
                proof {
                    assert(!fits_i64(spec_message_count(watermarks@, j + 1)));
                }
                return None;
            }
            message_count = total_wide as i64;
            offsets.push(PartitionOffsets { low, high, count, id, leader });
            j += 1;
        }
        Some(
            TopicDetail {
                info: TopicInfo { name, nb_partitions: n },
                message_count,
                offsets,
            },
        )
    }
}

/// Broker and topic counts for the cluster banner.
pub struct ClusterInfo {
    pub broker_count: usize,
    pub topic_count: usize,
    pub broker_name: String,
    pub broker_id: i32,
}

/// The payload retained from a commit record: the committed offset.
/// Trailing metadata and timestamp fields of the source record are
/// intentionally not decoded.
#[derive(Clone, Copy, Debug, PartialEq, Eq, Structural)]
pub struct OffsetValue {
    pub offset: i64,
}

/// A key read off the commit log. The wire version selects the variant:
/// a version of at most 1 carries group, topic and partition; a greater
/// version carries only the group and marks group-metadata bookkeeping.
#[derive(Debug)]
pub enum OffsetAndMetadata {
    OffsetKey { group: String, topic: String, partition: i32 },
    GroupMetadataKey { group: String },
}

/// Mathematical image of an `OffsetAndMetadata` key. Two keys are the
/// same only if both the variant and every field agree.
pub enum CommitKeyView {
    OffsetKey { group: Seq<char>, topic: Seq<char>, partition: i32 },
    GroupMetadataKey { group: Seq<char> },
}

impl View for OffsetAndMetadata {
    type V = CommitKeyView;

    open spec fn view(&self) -> CommitKeyView {
        match self {
            OffsetAndMetadata::OffsetKey { group, topic, partition } => CommitKeyView::OffsetKey {
                group: group@,
                topic: topic@,
                partition: *partition,
            },
            OffsetAndMetadata::GroupMetadataKey { group } => CommitKeyView::GroupMetadataKey {
                group: group@,
            },
        }
    }
}

impl OffsetAndMetadata {
    /// Equality of keys: variant tag and all fields must match.
    pub fn key_eq(&self, other: &OffsetAndMetadata) -> (r: bool)
        ensures
            r == (self@ == other@),
    {
        match (self, other) {
            (
                OffsetAndMetadata::OffsetKey { group: g1, topic: t1, partition: p1 },
                OffsetAndMetadata::OffsetKey { group: g2, topic: t2, partition: p2 },
            ) => str_eq(g1.as_str(), g2.as_str()) && str_eq(t1.as_str(), t2.as_str()) && *p1
                == *p2,
            (
                OffsetAndMetadata::GroupMetadataKey { group: g1 },
                OffsetAndMetadata::GroupMetadataKey { group: g2 },
            ) => str_eq(g1.as_str(), g2.as_str()),
            _ => false,
        }
    }

    /// A copy whose mathematical image is the same as this key's.
    pub fn duplicate(&self) -> (r: OffsetAndMetadata)
        ensures
            r@ == self@,
    {
        match self {
            OffsetAndMetadata::OffsetKey { group, topic, partition } => {
                OffsetAndMetadata::OffsetKey {
                    group: group.clone(),
                    topic: topic.clone(),
                    partition: *partition,
                }
            },
            OffsetAndMetadata::GroupMetadataKey { group } => {
                OffsetAndMetadata::GroupMetadataKey { group: group.clone() }
            },
        }
    }
}

/// String-slice equality, decided byte by byte.
pub fn str_eq(a: &str, b: &str) -> (r: bool)
    ensures
        r == (a@ == b@),
{
    let ab = a.as_bytes();
    let bb = b.as_bytes();
    if ab.len() != bb.len() {
        return false;
    }
    let n = ab.len();
    let mut i: usize = 0;
    while i < n
        invariant
            n == ab@.len(),
            ab@.len() == bb@.len(),
            i <= n,
            ab@ == a.spec_bytes(),
            bb@ == b.spec_bytes(),
            forall|j: int| 0 <= j < i ==> ab@[j] == bb@[j],
        decreases n - i,
    {
        if ab[i] != bb[i] {
            return false;
        }
        i += 1;
    }
    proof {
        assert(ab@ =~= bb@);
        broadcast use vstd::utf8::encode_utf8_decode_utf8;

        assert(a@ == vstd::utf8::decode_utf8(vstd::utf8::encode_utf8(a@)));
    }
    true
}

} // verus!
