//! Consumption lag, derived from a snapshot of the offset store and a
//! topic's watermarks: for every group that consumes the topic, the
//! distance from the group's last committed offset to each partition's
//! high watermark, and their sum.
//!
//! A group without a stored commit for a partition is counted as
//! committed at offset 0 — maximal lag, not "unknown". A committed
//! offset beyond the high watermark gives a negative lag, which is
//! kept, not clamped.

use crate::model::{
    fits_i64, group_consumes, CommitKeyView, GroupInfo, OffsetAndMetadata, OffsetValue,
    PartitionOffsets, TopicDetail,
};
use crate::store::OffsetStore;
use vstd::prelude::*;

verus! {

/// One partition's committed offset and lag for one group.
#[derive(Clone, Copy, Debug, PartialEq, Eq, Structural)]
pub struct PartitionLag {
    pub id: i32,
    pub committed: i64,
    pub lag: i64,
}

/// One consuming group's per-partition lags and their sum.
pub struct GroupLag {
    pub group_name: String,
    pub partitions: Vec<PartitionLag>,
    pub total: i64,
}

/// Mathematical image of a `GroupLag`.
pub struct GroupLagView {
    pub group_name: Seq<char>,
    pub partitions: Seq<PartitionLag>,
    pub total: i64,
}

impl View for GroupLag {
    type V = GroupLagView;

    open spec fn view(&self) -> GroupLagView {
        GroupLagView {
            group_name: self.group_name@,
            partitions: self.partitions@,
            total: self.total,
        }
    }
}

/// The offset a group has committed for one partition of a topic: the
/// stored value if the snapshot holds one, else 0.
pub open spec fn spec_committed(
    m: Map<CommitKeyView, OffsetValue>,
    group: Seq<char>,
    topic: Seq<char>,
    partition: i32,
) -> int {
    let k = CommitKeyView::OffsetKey { group, topic, partition };
    if m.contains_key(k) {
        m[k].offset as int
    } else {
        0
    }
}

/// One partition's lag: its high watermark minus the committed offset.
pub open spec fn spec_partition_lag(
    m: Map<CommitKeyView, OffsetValue>,
    group: Seq<char>,
    topic: Seq<char>,
    p: PartitionOffsets,
) -> int {
    p.high - spec_committed(m, group, topic, p.id)
}

/// The sum of the lags of the first `n` partitions.
pub open spec fn spec_total_lag(
    m: Map<CommitKeyView, OffsetValue>,
    group: Seq<char>,
    topic: Seq<char>,
    parts: Seq<PartitionOffsets>,
    n: int,
) -> int
    decreases n,
{
    if n <= 0 {
        0
    } else {
        spec_total_lag(m, group, topic, parts, n - 1) + spec_partition_lag(
            m,
            group,
            topic,
            parts[n - 1],
        )
    }
}

/// Whether one group's lags and running totals all fit `i64`.
pub open spec fn group_lags_fit(
    m: Map<CommitKeyView, OffsetValue>,
    group: Seq<char>,
    topic: Seq<char>,
    parts: Seq<PartitionOffsets>,
) -> bool {
    forall|j: int|
        0 <= j < parts.len() ==> fits_i64(spec_partition_lag(m, group, topic, parts[j]))
            && fits_i64(spec_total_lag(m, group, topic, parts, j + 1))
}

/// Whether every consuming group's lags fit `i64`.
pub open spec fn all_lags_fit(
    m: Map<CommitKeyView, OffsetValue>,
    groups: Seq<GroupInfo>,
    topic: Seq<char>,
    parts: Seq<PartitionOffsets>,
) -> bool {
    forall|i: int|
        0 <= i < groups.len() && group_consumes(&groups[i], topic) ==> group_lags_fit(
            m,
            groups[i].name@,
            topic,
            parts,
        )
}

/// One group's lag summary.
pub open spec fn spec_group_lag(
    m: Map<CommitKeyView, OffsetValue>,
    g: GroupInfo,
    topic: Seq<char>,
    parts: Seq<PartitionOffsets>,
) -> GroupLagView {
    GroupLagView {
        group_name: g.name@,
        partitions: Seq::new(
            parts.len(),
            |j: int|
                PartitionLag {
                    id: parts[j].id,
                    committed: spec_committed(m, g.name@, topic, parts[j].id) as i64,
                    lag: spec_partition_lag(m, g.name@, topic, parts[j]) as i64,
                },
        ),
        total: spec_total_lag(m, g.name@, topic, parts, parts.len() as int) as i64,
    }
}

/// The lag summaries of the groups that consume the topic, in the
/// order the groups were given.
pub open spec fn spec_compute(
    m: Map<CommitKeyView, OffsetValue>,
    groups: Seq<GroupInfo>,
    topic: Seq<char>,
    parts: Seq<PartitionOffsets>,
) -> Seq<GroupLagView>
    decreases groups.len(),
{
    if groups.len() == 0 {
        Seq::empty()
    } else {
        let pre = spec_compute(m, groups.drop_last(), topic, parts);
        if group_consumes(&groups.last(), topic) {
            pre.push(spec_group_lag(m, groups.last(), topic, parts))
        } else {
            pre
        }
    }
}

/// Derives per-partition and aggregate lag for every group that
/// consumes the topic, against a snapshot of the offset store. Returns
/// `None` exactly when some lag or running total would leave `i64`.
pub fn compute(topic_detail: &TopicDetail, group_infos: &Vec<GroupInfo>, snapshot: &OffsetStore) -> (r:
    Option<Vec<GroupLag>>)
    requires
        snapshot.wf(),
    ensures
        r is Some <==> all_lags_fit(
            snapshot@,
            group_infos@,
            topic_detail.info.name@,
            topic_detail.offsets@,
        ),
        r matches Some(v) ==> v@.map_values(|g: GroupLag| g@) == spec_compute(
            snapshot@,
            group_infos@,
            topic_detail.info.name@,
            topic_detail.offsets@,
        ),
{
    let ghost m = snapshot@;
    let ghost topic_v = topic_detail.info.name@;
    let ghost parts_v = topic_detail.offsets@;
    let ngroups = group_infos.len();
    let nparts = topic_detail.offsets.len();
    let mut out: Vec<GroupLag> = Vec::new();
    let mut gi: usize = 0;
    while gi < ngroups
        invariant
            snapshot.wf(),
            m == snapshot@,
            topic_v == topic_detail.info.name@,
            parts_v == topic_detail.offsets@,
            ngroups == group_infos@.len(),
            nparts == parts_v.len(),
            gi <= ngroups,
            out@.map_values(|g: GroupLag| g@) == spec_compute(
                m,
                group_infos@.take(gi as int),
                topic_v,
                parts_v,
            ),
            forall|i: int|
                0 <= i < gi && group_consumes(&group_infos@[i], topic_v) ==> group_lags_fit(
                    m,
                    group_infos@[i].name@,
                    topic_v,
                    parts_v,
                ),
        decreases ngroups - gi,
    {
        let group = &group_infos[gi];
        let ghost gname = group.name@;
        if group.consume_topic(topic_detail.info.name.as_str()) {
            let mut plags: Vec<PartitionLag> = Vec::new();
            let mut total: i64 = 0;
            let mut pj: usize = 0;
            while pj < nparts
                invariant
                    snapshot.wf(),
                    m == snapshot@,
                    topic_v == topic_detail.info.name@,
                    parts_v == topic_detail.offsets@,
                    nparts == parts_v.len(),
                    pj <= nparts,
                    gname == group_infos@[gi as int].name@,
                    gi < group_infos@.len(),
                    group == &group_infos@[gi as int],
                    group_consumes(&group_infos@[gi as int], topic_v),
                    plags@.len() == pj,
                    forall|j: int|
                        0 <= j < pj ==> plags@[j] == (PartitionLag {
                            id: parts_v[j].id,
                            committed: spec_committed(m, gname, topic_v, parts_v[j].id) as i64,
                            lag: spec_partition_lag(m, gname, topic_v, parts_v[j]) as i64,
                        }),
                    total as int == spec_total_lag(m, gname, topic_v, parts_v, pj as int),
                    forall|j: int|
                        0 <= j < pj ==> fits_i64(spec_partition_lag(m, gname, topic_v, parts_v[j]))
                            && fits_i64(spec_total_lag(m, gname, topic_v, parts_v, j + 1)),
                decreases nparts - pj,
            {
                let part = &topic_detail.offsets[pj];
                let key = OffsetAndMetadata::OffsetKey {
                    group: group.name.clone(),
                    topic: topic_detail.info.name.clone(),
                    partition: part.id,
                };
                let committed: i64 = match snapshot.get(&key) {
                    Some(v) => v.offset,
                    None => 0,
                };
                proof {
                    assert(key@ == (CommitKeyView::OffsetKey {
                        group: gname,
                        topic: topic_v,
                        partition: part.id,
                    }));
                    assert(committed as int == spec_committed(m, gname, topic_v, part.id));
                }
                let lag_wide: i128 = (part.high as i128) - (committed as i128);
                proof {
                    assert(lag_wide as int == spec_partition_lag(m, gname, topic_v, parts_v[pj as int]));
                }
                if lag_wide < (i64::MIN as i128) || lag_wide > (i64::MAX as i128) {
                    proof {
                        assert(!fits_i64(spec_partition_lag(m, gname, topic_v, parts_v[pj as int])));
                        assert(!group_lags_fit(m, gname, topic_v, parts_v));
                        assert(!all_lags_fit(m, group_infos@, topic_v, parts_v));
                    }
                    return None;
                }
                let lag: i64 = lag_wide as i64;
                let total_wide: i128 = (total as i128) + (lag as i128);
                proof {
                    assert(total_wide as int == spec_total_lag(m, gname, topic_v, parts_v, pj + 1));
                }
                if total_wide < (i64::MIN as i128) || total_wide > (i64::MAX as i128) {
                    proof {
                        assert(!fits_i64(spec_total_lag(m, gname, topic_v, parts_v, pj + 1)));
                        assert(!group_lags_fit(m, gname, topic_v, parts_v));
                        assert(!all_lags_fit(m, group_infos@, topic_v, parts_v));
                    }
                    return None;
                }
                total = total_wide as i64;
                plags.push(PartitionLag { id: part.id, committed, lag });
                pj += 1;
            }
            let glag = GroupLag {
                group_name: group.name.clone(),
                partitions: plags,
                total,
            };
            proof {
                assert(glag@.partitions =~= spec_group_lag(
                    m,
                    group_infos@[gi as int],
                    topic_v,
                    parts_v,
                ).partitions);
                assert(glag@ == spec_group_lag(m, group_infos@[gi as int], topic_v, parts_v));
                let f = |g: GroupLag| g@;
                assert(group_infos@.take(gi + 1).drop_last() =~= group_infos@.take(gi as int));
                assert(group_infos@.take(gi + 1).last() == group_infos@[gi as int]);
                assert(out@.push(glag).map_values(f) =~= out@.map_values(f).push(glag@));
            }
            out.push(glag);
        } else {
            proof {
                assert(group_infos@.take(gi + 1).drop_last() =~= group_infos@.take(gi as int));
                assert(group_infos@.take(gi + 1).last() == group_infos@[gi as int]);
            }
        }
        gi += 1;
    }
    proof {
        assert(group_infos@.take(ngroups as int) =~= group_infos@);
    }
    Some(out)
}

} // verus!
