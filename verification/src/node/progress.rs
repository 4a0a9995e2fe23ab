//! Per-peer bookkeeping.

use vstd::prelude::*;

use crate::state::SnapshotMeta;
use crate::types::{LogIndex, PeerId};

verus! {

/// A map for small sets of peers: a linear scan over packed pairs.
pub struct PeerMap<T> {
    entries: Vec<(PeerId, T)>,
}

/// Where `key` stands in `pairs`.
spec fn position<T>(pairs: Seq<(PeerId, T)>, key: PeerId) -> int {
    choose|i: int| 0 <= i < pairs.len() && (#[trigger] pairs[i]).0 == key
}

spec fn has_key<T>(pairs: Seq<(PeerId, T)>, key: PeerId) -> bool {
    exists|i: int| 0 <= i < pairs.len() && (#[trigger] pairs[i]).0 == key
}

spec fn distinct_keys<T>(pairs: Seq<(PeerId, T)>) -> bool {
    forall|i: int, j: int|
        0 <= i < pairs.len() && 0 <= j < pairs.len() && i != j ==> (#[trigger] pairs[i]).0 != (
        #[trigger] pairs[j]).0
}

spec fn pairs_map<T>(pairs: Seq<(PeerId, T)>) -> Map<PeerId, T> {
    Map::new(|k: PeerId| has_key(pairs, k), |k: PeerId| pairs[position(pairs, k)].1)
}

/// A map has as many keys as pairs.
proof fn lemma_pairs_len<T>(pairs: Seq<(PeerId, T)>)
    requires
        distinct_keys(pairs),
    ensures
        pairs_map(pairs).dom().finite(),
        pairs_map(pairs).dom().len() == pairs.len(),
    decreases pairs.len(),
{
    let dom = pairs_map(pairs).dom();
    if pairs.len() == 0 {
        assert(dom =~= Set::empty());
    } else {
        let front = pairs.drop_last();
        lemma_pairs_len(front);
        let rest = pairs_map(front).dom();
        assert(!rest.contains(pairs.last().0)) by {
            if has_key(front, pairs.last().0) {
                let i = position(front, pairs.last().0);
                assert(front[i].0 == pairs.last().0);
                assert(pairs[i].0 == pairs[pairs.len() - 1].0);
            }
        }
        assert forall|k: PeerId| dom.contains(k) == rest.insert(pairs.last().0).contains(k) by {
            if has_key(pairs, k) {
                let i = position(pairs, k);
                assert(pairs[i].0 == k);
                if i < front.len() {
                    assert(front[i].0 == k);
                }
            }
            if has_key(front, k) {
                let i = position(front, k);
                assert(front[i].0 == k);
                assert(pairs[i].0 == k);
            }
            if k == pairs.last().0 {
                assert(pairs[pairs.len() - 1].0 == k);
            }
        }
        assert(dom =~= rest.insert(pairs.last().0));
    }
}

impl<T> View for PeerMap<T> {
    type V = Map<PeerId, T>;

    closed spec fn view(&self) -> Map<PeerId, T> {
        pairs_map(self.entries@)
    }
}

impl<T> PeerMap<T> {
    #[verifier::type_invariant]
    spec fn inv(self) -> bool {
        distinct_keys(self.entries@)
    }

    /// The pairs in the order in which they are walked.
    pub closed spec fn pairs(self) -> Seq<(PeerId, T)> {
        self.entries@
    }

    pub fn with_capacity(capacity: usize) -> (r: Self)
        ensures
            r@ == Map::<PeerId, T>::empty(),
            r.pairs().len() == 0,
    {
        let r = PeerMap { entries: Vec::with_capacity(capacity) };
        assert(r@ =~= Map::<PeerId, T>::empty());
        r
    }

    pub fn len(&self) -> (r: usize)
        ensures
            r == self.pairs().len(),
            self@.dom().finite(),
            r == self@.dom().len(),
    {
        proof {
            use_type_invariant(self);
            lemma_pairs_len(self.entries@);
        }
        self.entries.len()
    }

    pub fn is_empty(&self) -> (r: bool)
        ensures
            r == (self@ == Map::<PeerId, T>::empty()),
            r == (self.pairs().len() == 0),
    {
        proof {
            if self.entries@.len() > 0 {
                assert(self@.dom().contains(self.entries@[0].0));
            } else {
                assert(self@ =~= Map::<PeerId, T>::empty());
            }
        }
        self.entries.is_empty()
    }

    pub fn clear(&mut self)
        ensures
            final(self)@ == Map::<PeerId, T>::empty(),
            final(self).pairs().len() == 0,
    {
        *self = PeerMap { entries: Vec::new() };
        assert(self@ =~= Map::<PeerId, T>::empty());
    }

    /// Where `key` stands, if it is there.
    fn find(&self, key: PeerId) -> (r: Option<usize>)
        ensures
            match r {
                Some(i) => i < self.entries@.len() && self.entries@[i as int].0 == key
                    && self@.dom().contains(key) && self@[key] == self.entries@[i as int].1,
                None => !self@.dom().contains(key),
            },
    {
        proof {
            use_type_invariant(self);
        }
        let mut i: usize = 0;
        while i < self.entries.len()
            invariant
                i <= self.entries@.len(),
                distinct_keys(self.entries@),
                forall|j: int| 0 <= j < i ==> (#[trigger] self.entries@[j]).0 != key,
            decreases self.entries@.len() - i,
        {
            if self.entries[i].0 == key {
                assert(self.entries@[i as int].0 == key);
                assert(position(self.entries@, key) == i);
                return Some(i);
            }
            i = i + 1;
        }
        None
    }

    pub fn insert(&mut self, key: PeerId, value: T)
        ensures
            final(self)@ == old(self)@.insert(key, value),
    {
        proof {
            use_type_invariant(&*self);
        }
        let found = self.find(key);
        let mut entries: Vec<(PeerId, T)> = Vec::new();
        std::mem::swap(&mut entries, &mut self.entries);
        let ghost held = entries@;
        match found {
            Some(i) => {
                entries.set(i, (key, value));
            },
            None => {
                assert(forall|j: int| 0 <= j < held.len() ==> (#[trigger] held[j]).0 != key) by {
                    assert forall|j: int| 0 <= j < held.len() implies (#[trigger] held[j]).0
                        != key by {
                        if held[j].0 == key {
                            assert(has_key(held, key));
                        }
                    }
                }
                entries.push((key, value));
            },
        }
        let ghost now = entries@;
        proof {
            let at: int = match found {
                Some(i) => i as int,
                None => held.len() as int,
            };
            assert(now[at] == (key, value));
            assert forall|k: PeerId| has_key(now, k) == (has_key(held, k) || k == key) by {
                if has_key(held, k) && k != key {
                    let j = position(held, k);
                    assert(now[j].0 == k);
                }
                if has_key(now, k) && k != key {
                    let j = position(now, k);
                    assert(held[j].0 == k);
                }
            }
            assert forall|k: PeerId| has_key(now, k) implies now[position(now, k)].1 == (if k
                == key {
                value
            } else {
                held[position(held, k)].1
            }) by {
                let j = position(now, k);
                assert(now[j].0 == k);
                if k == key {
                    assert(j == at);
                } else {
                    assert(held[j].0 == k);
                    let m = position(held, k);
                    assert(held[m].0 == k);
                    assert(m == j);
                }
            }
        }
        *self = PeerMap { entries };
        assert(self@ =~= old(self)@.insert(key, value));
    }

    pub fn get(&self, key: PeerId) -> (r: Option<&T>)
        ensures
            match r {
                Some(v) => self@.dom().contains(key) && *v == self@[key],
                None => !self@.dom().contains(key),
            },
    {
        match self.find(key) {
            Some(i) => Some(&self.entries[i].1),
            None => None,
        }
    }

    pub fn contains_key(&self, key: PeerId) -> (r: bool)
        ensures
            r == self@.dom().contains(key),
    {
        self.find(key).is_some()
    }

    pub fn remove(&mut self, key: PeerId) -> (r: Option<T>)
        ensures
            final(self)@ == old(self)@.remove(key),
            match r {
                Some(v) => old(self)@.dom().contains(key) && v == old(self)@[key],
                None => !old(self)@.dom().contains(key),
            },
    {
        proof {
            use_type_invariant(&*self);
        }
        let found = self.find(key);
        let mut entries: Vec<(PeerId, T)> = Vec::new();
        std::mem::swap(&mut entries, &mut self.entries);
        let ghost held = entries@;
        let taken: Option<T> = match found {
            Some(i) => {
                let (_, value) = entries.swap_remove(i);
                let ghost now = entries@;
                let ghost end = held.len() - 1;
                proof {
                    assert forall|k: PeerId| has_key(now, k) == (has_key(held, k) && k != key) by {
                        if has_key(held, k) && k != key {
                            let j = position(held, k);
                            assert(held[j].0 == k);
                            if j == end {
                                assert(now[i as int].0 == k);
                            } else {
                                assert(now[j].0 == k);
                            }
                        }
                        if has_key(now, k) {
                            let j = position(now, k);
                            assert(now[j].0 == k);
                            if j == i {
                                assert(held[end].0 == k);
                            } else {
                                assert(held[j].0 == k);
                            }
                        }
                    }
                    assert forall|k: PeerId| has_key(now, k) implies now[position(now, k)].1
                        == held[position(held, k)].1 by {
                        let j = position(now, k);
                        assert(now[j].0 == k);
                        let m = position(held, k);
                        assert(held[m].0 == k);
                        if j == i {
                            assert(held[end].0 == k);
                            assert(m == end);
                        } else {
                            assert(held[j].0 == k);
                            assert(m == j);
                        }
                    }
                }
                Some(value)
            },
            None => None,
        };
        *self = PeerMap { entries };
        assert(self@ =~= old(self)@.remove(key));
        taken
    }

    /// The `i`-th pair of the walk.
    pub fn at(&self, i: usize) -> (r: (PeerId, &T))
        requires
            i < self.pairs().len(),
        ensures
            r.0 == self.pairs()[i as int].0,
            *r.1 == self.pairs()[i as int].1,
            self@.dom().contains(r.0),
            self@[r.0] == *r.1,
    {
        proof {
            use_type_invariant(self);
        }
        let pair = &self.entries[i];
        proof {
            assert(self.entries@[i as int].0 == pair.0);
            assert(position(self.entries@, pair.0) == i);
        }
        (pair.0, &pair.1)
    }

    /// Every key of the map comes up in the walk.
    pub proof fn lemma_walk_covers(self, key: PeerId)
        requires
            self@.dom().contains(key),
        ensures
            exists|i: int| 0 <= i < self.pairs().len() && (#[trigger] self.pairs()[i]).0 == key,
    {
        let i = position(self.entries@, key);
        assert(self.pairs()[i].0 == key);
    }
}

/// How far replication to one peer has come.
#[derive(Clone, Copy, Debug, PartialEq, Eq, Structural)]
pub struct PeerProgress {
    pub next_index: LogIndex,
    pub match_index: LogIndex,
}

/// An append request under way.
#[derive(Clone, Copy, Debug, PartialEq, Eq, Structural)]
pub struct AppendAttemptState {
    pub attempts: u64,
    pub sent_last_index: LogIndex,
}

/// What an append response means for the request it answers.
#[derive(Clone, Copy, Debug, PartialEq, Eq, Structural)]
pub enum AppendAdvance {
    Completed,
    Retry(AppendAttemptState),
    Dropped,
    Ignored,
}

/// A snapshot transfer that a follower is receiving.
#[derive(Debug)]
pub struct PendingSnapshot {
    pub meta: SnapshotMeta,
    pub bytes: Vec<u8>,
    /// The time, in milliseconds, after which the transfer counts as stalled.
    /// Every accepted chunk moves it forward.
    pub deadline_ms: u64,
}

/// What a [`PendingSnapshot`] stands for.
#[verifier::ext_equal]
pub struct PendingModel {
    pub meta: SnapshotMeta,
    pub bytes: Seq<u8>,
    pub deadline_ms: u64,
}

impl View for PendingSnapshot {
    type V = PendingModel;

    open spec fn view(&self) -> PendingModel {
        PendingModel { meta: self.meta, bytes: self.bytes@, deadline_ms: self.deadline_ms }
    }
}

/// A deadline `timeout_ms` after `now_ms`, or the end of time where that is
/// earlier.
pub open spec fn deadline(now_ms: u64, timeout_ms: u64) -> u64 {
    if now_ms + timeout_ms > u64::MAX {
        u64::MAX
    } else {
        (now_ms + timeout_ms) as u64
    }
}

impl PendingSnapshot {
    pub fn new(meta: SnapshotMeta, now_ms: u64, stall_timeout_ms: u64) -> (r: Self)
        ensures
            r.meta == meta,
            r.bytes@.len() == 0,
            r.deadline_ms == deadline(now_ms, stall_timeout_ms),
    {
        PendingSnapshot {
            meta,
            bytes: Vec::new(),
            deadline_ms: now_ms.saturating_add(stall_timeout_ms),
        }
    }

    /// Starts the transfer over, for `meta`.
    pub fn reset(&mut self, meta: SnapshotMeta, now_ms: u64, stall_timeout_ms: u64)
        ensures
            final(self).meta == meta,
            final(self).bytes@.len() == 0,
            final(self).deadline_ms == deadline(now_ms, stall_timeout_ms),
    {
        self.meta = meta;
        self.bytes.clear();
        self.touch(now_ms, stall_timeout_ms);
    }

    /// Records progress.
    pub fn touch(&mut self, now_ms: u64, stall_timeout_ms: u64)
        ensures
            final(self).meta == old(self).meta,
            final(self).bytes@ == old(self).bytes@,
            final(self).deadline_ms == deadline(now_ms, stall_timeout_ms),
    {
        self.deadline_ms = now_ms.saturating_add(stall_timeout_ms);
    }

    pub fn is_expired(&self, now_ms: u64) -> (r: bool)
        ensures
            r == (now_ms > self.deadline_ms),
    {
        now_ms > self.deadline_ms
    }
}

/// A leader's record of failed snapshot installs to one peer.
#[derive(Clone, Copy, Debug, PartialEq, Eq, Structural)]
pub struct SnapshotAttempts {
    /// Consecutive failed installs since the last success or reset.
    pub attempts: u32,
    /// Until this time, in milliseconds, installs to the peer are refused.
    pub cooldown_until: Option<u64>,
}

impl Default for SnapshotAttempts {
    fn default() -> (r: Self)
        ensures
            r.attempts == 0,
            r.cooldown_until is None,
    {
        SnapshotAttempts { attempts: 0, cooldown_until: None }
    }
}

} // verus!
