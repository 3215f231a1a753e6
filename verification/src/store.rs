//! The offset store: the latest known commit value per commit key,
//! rebuilt continuously from the records the ingester decodes. The
//! store is a mapping with last-value-wins replacement; a snapshot
//! copy gives readers a view consistent at a point in time while the
//! writer goes on.

use crate::model::{CommitKeyView, OffsetAndMetadata, OffsetValue};
use vstd::prelude::*;

verus! {

/// The mapping a sequence of entries denotes: every key maps to the
/// value it was given last.
pub open spec fn entries_map(s: Seq<(OffsetAndMetadata, OffsetValue)>) -> Map<
    CommitKeyView,
    OffsetValue,
>
    decreases s.len(),
{
    if s.len() == 0 {
        Map::empty()
    } else {
        entries_map(s.drop_last()).insert(s.last().0@, s.last().1)
    }
}

/// No two entries carry the same key.
pub open spec fn distinct_keys(s: Seq<(OffsetAndMetadata, OffsetValue)>) -> bool {
    forall|i: int, j: int| 0 <= i < j < s.len() ==> s[i].0@ != s[j].0@
}

proof fn lemma_entries_map_contains(s: Seq<(OffsetAndMetadata, OffsetValue)>, kv: CommitKeyView)
    ensures
        entries_map(s).contains_key(kv) <==> exists|i: int| 0 <= i < s.len() && s[i].0@ == kv,
    decreases s.len(),
{
    if s.len() > 0 {
        lemma_entries_map_contains(s.drop_last(), kv);
        if s.last().0@ == kv {
            assert(s[s.len() - 1].0@ == kv);
        } else if entries_map(s).contains_key(kv) {
            let i = choose|i: int| 0 <= i < s.drop_last().len() && s.drop_last()[i].0@ == kv;
            assert(s[i].0@ == kv);
        } else {
            assert forall|i: int| 0 <= i < s.len() && s[i].0@ == kv implies false by {
                if i < s.len() - 1 {
                    assert(s.drop_last()[i].0@ == kv);
                }
            }
        }
    }
}

proof fn lemma_entries_map_at(s: Seq<(OffsetAndMetadata, OffsetValue)>, i: int)
    requires
        distinct_keys(s),
        0 <= i < s.len(),
    ensures
        entries_map(s).contains_key(s[i].0@),
        entries_map(s)[s[i].0@] == s[i].1,
    decreases s.len(),
{
    if i == s.len() - 1 {
    } else {
        assert(s.drop_last()[i] == s[i]);
        lemma_entries_map_at(s.drop_last(), i);
        assert(s[i].0@ != s.last().0@);
    }
}

proof fn lemma_entries_map_update(
    s: Seq<(OffsetAndMetadata, OffsetValue)>,
    i: int,
    key: OffsetAndMetadata,
    value: OffsetValue,
)
    requires
        distinct_keys(s),
        0 <= i < s.len(),
        s[i].0@ == key@,
    ensures
        entries_map(s.update(i, (key, value))) == entries_map(s).insert(key@, value),
    decreases s.len(),
{
    let s2 = s.update(i, (key, value));
    if i == s.len() - 1 {
        assert(s2.drop_last() =~= s.drop_last());
        assert(s2.last() == (key, value));
        assert(entries_map(s.drop_last()).insert(s.last().0@, s.last().1).insert(key@, value)
            =~= entries_map(s.drop_last()).insert(key@, value));
    } else {
        assert(s2.drop_last() =~= s.drop_last().update(i, (key, value)));
        assert(s2.last() == s.last());
        assert(s.drop_last()[i] == s[i]);
        lemma_entries_map_update(s.drop_last(), i, key, value);
        assert(s[i].0@ != s.last().0@);
        assert(entries_map(s.drop_last()).insert(key@, value).insert(s.last().0@, s.last().1)
            =~= entries_map(s.drop_last()).insert(s.last().0@, s.last().1).insert(key@, value));
    }
}

proof fn lemma_entries_map_congruent(
    s1: Seq<(OffsetAndMetadata, OffsetValue)>,
    s2: Seq<(OffsetAndMetadata, OffsetValue)>,
)
    requires
        s1.len() == s2.len(),
        forall|j: int| 0 <= j < s1.len() ==> s1[j].0@ == s2[j].0@ && s1[j].1 == s2[j].1,
    ensures
        entries_map(s1) == entries_map(s2),
    decreases s1.len(),
{
    if s1.len() > 0 {
        assert(forall|j: int|
            0 <= j < s1.drop_last().len() ==> s1.drop_last()[j] == s1[j] && s2.drop_last()[j]
                == s2[j]);
        lemma_entries_map_congruent(s1.drop_last(), s2.drop_last());
        assert(entries_map(s1) =~= entries_map(s2));
    }
}

/// The store of latest commit values, keyed by commit key. One entry
/// per distinct key; `insert` replaces in place.
pub struct OffsetStore {
    entries: Vec<(OffsetAndMetadata, OffsetValue)>,
}

impl View for OffsetStore {
    type V = Map<CommitKeyView, OffsetValue>;

    closed spec fn view(&self) -> Map<CommitKeyView, OffsetValue> {
        entries_map(self.entries@)
    }
}

impl OffsetStore {
    /// Well-formedness: at most one entry per distinct key.
    pub closed spec fn wf(&self) -> bool {
        distinct_keys(self.entries@)
    }

    /// An empty store.
    pub fn new() -> (r: OffsetStore)
        ensures
            r.wf(),
            r@ == Map::<CommitKeyView, OffsetValue>::empty(),
    {
        OffsetStore { entries: Vec::new() }
    }

    /// Stores `value` under `key`, replacing any value the key had.
    pub fn insert(&mut self, key: OffsetAndMetadata, value: OffsetValue)
        requires
            old(self).wf(),
        ensures
            final(self).wf(),
            final(self)@ == old(self)@.insert(key@, value),
    {
        let n = self.entries.len();
        let mut i: usize = 0;
        while i < n
            invariant
                n == self.entries@.len(),
                i <= n,
                self.entries@ == old(self).entries@,
                distinct_keys(self.entries@),
                forall|j: int| 0 <= j < i ==> self.entries@[j].0@ != key@,
            decreases n - i,
        {
            if self.entries[i].0.key_eq(&key) {
                proof {
                    lemma_entries_map_update(self.entries@, i as int, key, value);
                }
                let ghost s_before = self.entries@;
                self.entries.set(i, (key, value));
                proof {
                    assert forall|a: int, b: int|
                        0 <= a < b < self.entries@.len() implies self.entries@[a].0@
                        != self.entries@[b].0@ by {
                        assert(self.entries@[a].0@ == s_before[a].0@);
                        assert(self.entries@[b].0@ == s_before[b].0@);
                    }
                }
                return ;
            }
            i += 1;
        }
        proof {
            let s2 = self.entries@.push((key, value));
            assert(s2.drop_last() =~= self.entries@);
            assert(!entries_map(self.entries@).contains_key(key@)) by {
                lemma_entries_map_contains(self.entries@, key@);
            }
            assert forall|a: int, b: int| 0 <= a < b < s2.len() implies s2[a].0@ != s2[b].0@ by {
                if b < s2.len() - 1 {
                    assert(s2[a].0@ == self.entries@[a].0@ && s2[b].0@ == self.entries@[b].0@);
                } else {
                    assert(s2[a].0@ == self.entries@[a].0@ && s2[b] == (key, value));
                }
            }
        }
        self.entries.push((key, value));
    }

    /// The value last stored under `key`, if the key is present.
    pub fn get(&self, key: &OffsetAndMetadata) -> (r: Option<OffsetValue>)
        requires
            self.wf(),
        ensures
            match r {
                Some(v) => self@.contains_key(key@) && v == self@[key@],
                None => !self@.contains_key(key@),
            },
    {
        let n = self.entries.len();
        let mut i: usize = 0;
        while i < n
            invariant
                n == self.entries@.len(),
                i <= n,
                distinct_keys(self.entries@),
                forall|j: int| 0 <= j < i ==> self.entries@[j].0@ != key@,
            decreases n - i,
        {
            if self.entries[i].0.key_eq(key) {
                proof {
                    lemma_entries_map_at(self.entries@, i as int);
                }
                return Some(self.entries[i].1);
            }
            i += 1;
        }
        proof {
            lemma_entries_map_contains(self.entries@, key@);
        }
        None
    }

    /// A copy of the store, consistent at the point of the call: later
    /// inserts into `self` do not show in the copy.
    pub fn snapshot(&self) -> (r: OffsetStore)
        requires
            self.wf(),
        ensures
            r.wf(),
            r@ == self@,
    {
        let n = self.entries.len();
        let mut out: Vec<(OffsetAndMetadata, OffsetValue)> = Vec::new();
        let mut i: usize = 0;
        while i < n
            invariant
                n == self.entries@.len(),
                i <= n,
                out@.len() == i,
                forall|j: int|
                    0 <= j < i ==> out@[j].0@ == self.entries@[j].0@ && out@[j].1
                        == self.entries@[j].1,
            decreases n - i,
        {
            let entry = (self.entries[i].0.duplicate(), self.entries[i].1);
            out.push(entry);
            i += 1;
        }
        proof {
            lemma_entries_map_congruent(out@, self.entries@);
        }
        OffsetStore { entries: out }
    }
}

/// Last-value-wins: storing `v1` and then `v2` under the same key
/// leaves the key mapped to `v2`, whatever the store held before.
pub proof fn lemma_last_value_wins(
    m: Map<CommitKeyView, OffsetValue>,
    k: CommitKeyView,
    v1: OffsetValue,
    v2: OffsetValue,
)
    ensures
        m.insert(k, v1).insert(k, v2).contains_key(k),
        m.insert(k, v1).insert(k, v2)[k] == v2,
{
}

} // verus!
