//! Heartbeats of many groups, one write per peer.

use vstd::prelude::*;

use super::heartbeat::out_of_reach;
use super::response::before;
use super::shared::{append_request_spec, looked_up};
use crate::node::progress::PeerProgress;
use crate::node::raft_node::{NodeModel, RaftNode};
use crate::protocol::codec::encode::vectored::{batch_body, batch_request};
use crate::protocol::codec::encode::{frame, frame_header};
use crate::protocol::codec::wire::{
    AppendEntries, RaftFrameHeader, APPEND_ENTRIES_SIZE, KIND_APPEND_ENTRIES, RAFT_MAGIC,
    RAFT_VERSION,
};
use crate::traits::{RaftStorage, StorageModel};
use crate::types::{GroupId, LogIndex, PeerId, Term};

verus! {

/// One heartbeat of one group.
#[derive(Clone, Copy, Debug)]
pub struct FrameOut {
    pub group_id: GroupId,
    pub from: PeerId,
    pub ae: AppendEntries,
}

impl FrameOut {
    /// The frame on the wire.
    pub open spec fn bytes(self) -> Seq<u8> {
        frame(self.from.0, self.group_id.0, KIND_APPEND_ENTRIES, self.ae.bytes())
    }
}

/// The frames for each peer, in the order in which they were added.
pub struct PeerBuckets {
    pub buckets: Vec<(PeerId, Vec<FrameOut>)>,
}

/// The frames for `peer` in `buckets`.
pub open spec fn frames_for(buckets: Seq<(PeerId, Vec<FrameOut>)>, peer: PeerId) -> Seq<FrameOut>
    decreases buckets.len(),
{
    if buckets.len() == 0 {
        Seq::empty()
    } else if buckets.last().0 == peer {
        buckets.last().1@
    } else {
        frames_for(buckets.drop_last(), peer)
    }
}

impl PeerBuckets {
    /// Whether each peer has one bucket.
    pub open spec fn wf(self) -> bool {
        forall|i: int, j: int|
            0 <= i < self.buckets@.len() && 0 <= j < self.buckets@.len() && i != j ==> (
            #[trigger] self.buckets@[i]).0 != (#[trigger] self.buckets@[j]).0
    }

    /// The frames for `peer`.
    pub open spec fn for_peer(self, peer: PeerId) -> Seq<FrameOut> {
        frames_for(self.buckets@, peer)
    }

    pub fn new() -> (r: Self)
        ensures
            r.wf(),
            forall|p: PeerId| #[trigger] r.for_peer(p) == Seq::<FrameOut>::empty(),
    {
        PeerBuckets { buckets: Vec::new() }
    }

    /// Adds a frame for `peer`.
    pub fn push(&mut self, peer: PeerId, f: FrameOut)
        requires
            old(self).wf(),
        ensures
            final(self).wf(),
            final(self).for_peer(peer) == old(self).for_peer(peer).push(f),
            forall|p: PeerId| p != peer ==> #[trigger] final(self).for_peer(p) == old(
                self,
            ).for_peer(p),
            total_frames(final(self).buckets@) == total_frames(old(self).buckets@) + 1,
    {
        let ghost held = self.buckets@;
        let mut i: usize = 0;
        while i < self.buckets.len()
            invariant
                i <= self.buckets@.len(),
                old(self).wf(),
                held == old(self).buckets@,
                self.buckets@ == held,
                forall|j: int| 0 <= j < i ==> (#[trigger] held[j]).0 != peer,
            decreases self.buckets@.len() - i,
        {
            if self.buckets[i].0 == peer {
                let (_, mut frames) = self.buckets.remove(i);
                frames.push(f);
                self.buckets.insert(i, (peer, frames));
                proof {
                    let now = self.buckets@;
                    assert(now =~= held.update(i as int, (peer, frames)));
                    lemma_frames_at(held, i as int);
                    lemma_frames_at(now, i as int);
                    lemma_total_update(held, i as int, (peer, frames));
                    assert forall|p: PeerId| p != peer implies frames_for(now, p) == frames_for(
                        held,
                        p,
                    ) by {
                        lemma_frames_update(held, i as int, (peer, frames), p);
                    }
                }
                return;
            }
            i = i + 1;
        }
        proof {
            lemma_frames_absent(held, peer);
        }
        let mut frames: Vec<FrameOut> = Vec::new();
        frames.push(f);
        self.buckets.push((peer, frames));
        proof {
            assert(self.buckets@.drop_last() =~= held);
            assert(frames@ =~= Seq::<FrameOut>::empty().push(f));
        }
    }
}

proof fn lemma_frames_at(buckets: Seq<(PeerId, Vec<FrameOut>)>, i: int)
    requires
        0 <= i < buckets.len(),
        forall|a: int, b: int|
            0 <= a < buckets.len() && 0 <= b < buckets.len() && a != b ==> (#[trigger] buckets[a]).0
                != (#[trigger] buckets[b]).0,
    ensures
        frames_for(buckets, buckets[i].0) == buckets[i].1@,
    decreases buckets.len(),
{
    if i < buckets.len() - 1 {
        let front = buckets.drop_last();
        assert(buckets[buckets.len() - 1].0 != buckets[i].0);
        assert forall|a: int, b: int|
            0 <= a < front.len() && 0 <= b < front.len() && a != b implies (#[trigger] front[a]).0
            != (#[trigger] front[b]).0 by {
            assert(front[a] == buckets[a] && front[b] == buckets[b]);
        }
        lemma_frames_at(front, i);
    }
}

proof fn lemma_frames_absent(buckets: Seq<(PeerId, Vec<FrameOut>)>, peer: PeerId)
    requires
        forall|j: int| 0 <= j < buckets.len() ==> (#[trigger] buckets[j]).0 != peer,
    ensures
        frames_for(buckets, peer) == Seq::<FrameOut>::empty(),
    decreases buckets.len(),
{
    if buckets.len() > 0 {
        assert(buckets[buckets.len() - 1].0 != peer);
        assert forall|j: int| 0 <= j < buckets.drop_last().len() implies (
        #[trigger] buckets.drop_last()[j]).0 != peer by {
            assert(buckets.drop_last()[j] == buckets[j]);
        }
        lemma_frames_absent(buckets.drop_last(), peer);
    }
}

proof fn lemma_frames_update(
    buckets: Seq<(PeerId, Vec<FrameOut>)>,
    i: int,
    b: (PeerId, Vec<FrameOut>),
    p: PeerId,
)
    requires
        0 <= i < buckets.len(),
        b.0 == buckets[i].0,
        p != b.0,
    ensures
        frames_for(buckets.update(i, b), p) == frames_for(buckets, p),
    decreases buckets.len(),
{
    let now = buckets.update(i, b);
    if i < buckets.len() - 1 {
        assert(now.drop_last() =~= buckets.drop_last().update(i, b));
        lemma_frames_update(buckets.drop_last(), i, b, p);
    } else {
        assert(now.drop_last() =~= buckets.drop_last());
    }
}

/// Adds one group's heartbeats to the buckets. A group that does not lead adds
/// nothing; a peer whose heartbeat cannot be built is passed over. The result
/// is the number of frames added and of peers passed over.
pub fn bucket_group_heartbeats<S: RaftStorage>(
    node: &mut RaftNode,
    storage: &S,
    group_id: GroupId,
    out: &mut PeerBuckets,
    now_ms: u64,
) -> (r: (usize, usize))
    requires
        old(out).wf(),
    ensures
        final(out).wf(),
        !old(node)@.leads() ==> r == (0usize, 0usize) && final(node)@ == old(node)@ && *final(out)
            == *old(out),
        old(node)@.leads() ==> {
            let ready = old(node)@.with_progress_started(now_ms);
            &&& r.0 + r.1 == old(node)@.replication_targets().len()
            &&& total_frames(final(out).buckets@) == total_frames(old(out).buckets@) + r.0
            &&& final(node)@.with_progress_started(now_ms) == (NodeModel {
                arena: final(node)@.arena,
                ..ready
            })
            &&& remembers_no_more(ready, final(node)@, storage.model())
            &&& forall|p: PeerId|
                #![trigger final(out).for_peer(p)]
                added_frames(
                    old(out).for_peer(p),
                    final(out).for_peer(p),
                    group_id,
                    ready,
                    storage.model(),
                    p,
                )
            &&& forall|p: PeerId|
                #![trigger final(out).for_peer(p)]
                !old(node)@.replication_targets().contains(p) ==> final(out).for_peer(p) == old(
                    out,
                ).for_peer(p)
            &&& forall|p: PeerId|
                #![trigger final(out).for_peer(p)]
                old(node)@.replication_targets().contains(p) && !out_of_reach::<S>(
                    ready,
                    storage.model(),
                    p,
                ) ==> final(out).for_peer(p).len() > old(out).for_peer(p).len()
        },
{
    if !node.is_leader() {
        return (0, 0);
    }
    let targets = node.replication_targets();
    let from = node.node_id();
    let ghost before = node@;
    let ghost ready = before.with_progress_started(now_ms);
    let ghost stored = storage.model();
    let ghost start = *out;
    let mut added: usize = 0;
    let mut passed: usize = 0;
    let mut i: usize = 0;
    assert forall|p: PeerId|
        #![trigger out.for_peer(p)]
        added_frames(start.for_peer(p), out.for_peer(p), group_id, ready, stored, p) by {
        let held = start.for_peer(p);
        assert(held.take(held.len() as int) =~= held);
    }
    while i < targets.len()
        invariant
            i <= targets@.len(),
            added + passed == i,
            targets@ == before.replication_targets(),
            from == before.node_id,
            stored == storage.model(),
            before.leads(),
            ready == before.with_progress_started(now_ms),
            node@.leads(),
            node@.with_progress_started(now_ms) == (NodeModel { arena: node@.arena, ..ready }),
            remembers_no_more(ready, node@, stored),
            out.wf(),
            total_frames(out.buckets@) == total_frames(start.buckets@) + added,
            forall|p: PeerId|
                #![trigger out.for_peer(p)]
                added_frames(start.for_peer(p), out.for_peer(p), group_id, ready, stored, p),
            forall|p: PeerId|
                #![trigger out.for_peer(p)]
                !before.replication_targets().contains(p) ==> out.for_peer(p) == start.for_peer(
                    p,
                ),
            forall|p: PeerId|
                #![trigger out.for_peer(p)]
                targets@.take(i as int).contains(p) && !out_of_reach::<S>(ready, stored, p)
                    ==> out.for_peer(p).len() > start.for_peer(p).len(),
        decreases targets@.len() - i,
    {
        let peer = targets[i];
        assert(before.replication_targets().contains(peer));
        proof {
            crate::node::raft_node::lemma_take_contains(targets@, i as int);
        }
        let ghost m = node@.with_progress_started(now_ms);
        let ghost prev = crate::node::replication::response::before(
            m.progress[peer].next_index.0,
        );
        let built = node.build_heartbeat_wire(storage, peer, now_ms);
        proof {
            assert(looked_up(m, stored, prev, node@));
            lemma_looked_up(ready, m, stored, prev, node@);
            lemma_progress_starts_once(before, node@, now_ms);
        }
        match built {
            Ok(Some(ae)) => {
                let ghost held = *out;
                assert(is_heartbeat(ae, ready, stored, peer)) by {
                    assert(m.arena.lookup(prev as int) is Some ==> m.arena.lookup(prev as int)
                        == ready.arena.lookup(prev as int) || m.arena.lookup(prev as int)
                        == stored.term_of(prev as int));
                }
                out.push(peer, FrameOut { group_id, from, ae });
                proof {
                    assert forall|p: PeerId|
                        #![trigger out.for_peer(p)]
                        added_frames(
                            start.for_peer(p),
                            out.for_peer(p),
                            group_id,
                            ready,
                            stored,
                            p,
                        ) by {
                        assert(added_frames(
                            start.for_peer(p),
                            held.for_peer(p),
                            group_id,
                            ready,
                            stored,
                            p,
                        ));
                        if p == peer {
                            let first = start.for_peer(p);
                            let grown = held.for_peer(p).push(FrameOut { group_id, from, ae });
                            assert(out.for_peer(p) == grown);
                            assert(grown.take(first.len() as int) =~= held.for_peer(p).take(
                                first.len() as int,
                            ));
                        }
                    }
                }
                added = added + 1;
            },
            Ok(None) => {
                passed = passed + 1;
            },
            Err(_) => {
                passed = passed + 1;
            },
        }
        i = i + 1;
    }
    assert(targets@.take(i as int) =~= targets@);
    (added, passed)
}

/// Progress that has been started is not started again.
proof fn lemma_progress_starts_once(before: NodeModel, m: NodeModel, now_ms: u64)
    requires
        m == (NodeModel { arena: m.arena, ..before.with_progress_started(now_ms) }),
    ensures
        m.with_progress_started(now_ms) == m,
{
    if m.progress == Map::<PeerId, PeerProgress>::empty() {
        let again = m.with_leader_progress(now_ms);
        let once = before.with_leader_progress(now_ms);
        assert(again.progress =~= once.progress);
        assert(again.contact =~= once.contact);
    }
}

/// Whether `ae` is a heartbeat of `leader` for `peer`: it asks about the entry
/// before the peer's next one.
pub open spec fn is_heartbeat(
    ae: AppendEntries,
    leader: NodeModel,
    stored: StorageModel,
    peer: PeerId,
) -> bool {
    let prev = before(leader.progress[peer].next_index.0);
    let term = Term(ae.prev_log_term);
    &&& leader.progress.dom().contains(peer)
    &&& ae == append_request_spec(leader, LogIndex(prev), term, 0)
    &&& leader.known_term_at(prev) == Some(term) || stored.term_of(prev as int) == Some(term)
        || leader.boundary == (LogIndex(prev), term)
}

/// Whether `now` is `held` with heartbeats of the group's leader for `peer` at
/// its end.
pub open spec fn added_frames(
    held: Seq<FrameOut>,
    now: Seq<FrameOut>,
    group_id: GroupId,
    leader: NodeModel,
    stored: StorageModel,
    peer: PeerId,
) -> bool {
    &&& held.len() <= now.len()
    &&& now.take(held.len() as int) == held
    &&& forall|i: int|
        held.len() <= i < now.len() ==> {
            &&& (#[trigger] now[i]).group_id == group_id
            &&& now[i].from == leader.node_id
            &&& is_heartbeat(now[i].ae, leader, stored, peer)
        }
}

/// How many frames `buckets` hold.
pub open spec fn total_frames(buckets: Seq<(PeerId, Vec<FrameOut>)>) -> nat
    decreases buckets.len(),
{
    if buckets.len() == 0 {
        0
    } else {
        total_frames(buckets.drop_last()) + buckets.last().1@.len()
    }
}

/// One bucket with other frames changes the total by the difference.
proof fn lemma_total_update(
    buckets: Seq<(PeerId, Vec<FrameOut>)>,
    i: int,
    b: (PeerId, Vec<FrameOut>),
)
    requires
        0 <= i < buckets.len(),
    ensures
        total_frames(buckets.update(i, b)) + buckets[i].1@.len() == total_frames(buckets)
            + b.1@.len(),
    decreases buckets.len(),
{
    let now = buckets.update(i, b);
    if i < buckets.len() - 1 {
        assert(now.drop_last() =~= buckets.drop_last().update(i, b));
        lemma_total_update(buckets.drop_last(), i, b);
    } else {
        assert(now.drop_last() =~= buckets.drop_last());
    }
}

/// What a leader remembers after looking up the term of one more entry is what
/// it remembered before, or what its storage holds.
proof fn lemma_looked_up(
    leader: NodeModel,
    m: NodeModel,
    stored: StorageModel,
    index: u64,
    after: NodeModel,
)
    requires
        remembers_no_more(leader, m, stored),
        looked_up(m, stored, index, after),
    ensures
        remembers_no_more(leader, after, stored),
{
    assert forall|i: int| #[trigger] after.arena.lookup(i) is Some implies after.arena.lookup(i)
        == leader.arena.lookup(i) || after.arena.lookup(i) == stored.term_of(i) by {
        assert(m.arena.lookup(i) is Some || i == index);
        assert(m.arena.lookup(i) == after.arena.lookup(i) || i == index);
    }
}

/// Whether everything that `m` remembers, `leader` remembers or the storage holds.
pub open spec fn remembers_no_more(leader: NodeModel, m: NodeModel, stored: StorageModel) -> bool {
    forall|i: int| #[trigger]
        m.arena.lookup(i) is Some ==> m.arena.lookup(i) == leader.arena.lookup(i) || m.arena.lookup(
            i,
        ) == stored.term_of(i)
}

/// A frame header.
pub fn write_frame_header(from: PeerId, group_id: GroupId, kind: u8, body_len: u32) -> (r: Vec<u8>)
    ensures
        r@ == frame_header(from.0, group_id.0, kind, body_len as nat).bytes(),
{
    let header = RaftFrameHeader {
        magic: RAFT_MAGIC,
        version: RAFT_VERSION,
        kind,
        flags: 0,
        from: from.0,
        body_len,
        reserved: 0,
        group_id: group_id.0,
    };
    let mut out: Vec<u8> = Vec::new();
    header.put(&mut out);
    assert(header == frame_header(from.0, group_id.0, kind, body_len as nat));
    out
}

/// The header and the body of one heartbeat.
pub fn heartbeat_slices(f: &FrameOut) -> (r: (Vec<u8>, Vec<u8>))
    ensures
        r.0@ + r.1@ == f.bytes(),
        r.1@ == f.ae.bytes(),
{
    let mut body: Vec<u8> = Vec::new();
    f.ae.put(&mut body);
    proof {
        f.ae.lemma_bytes_len();
    }
    (write_frame_header(f.from, f.group_id, KIND_APPEND_ENTRIES, APPEND_ENTRIES_SIZE as u32), body)
}

/// A batched heartbeat is the very frame that an ordinary one would be: a batch
/// without entries.
pub proof fn law_batched_heartbeats_are_ordinary_frames(f: FrameOut)
    requires
        f.ae.entry_count == 0,
    ensures
        f.bytes() == frame(
            f.from.0,
            f.group_id.0,
            KIND_APPEND_ENTRIES,
            batch_body(f.ae, Seq::empty()),
        ),
{
    assert(batch_request(f.ae, 0) == f.ae);
    assert(batch_body(f.ae, Seq::empty()) =~= f.ae.bytes());
}

/// What a batch adds for a peer comes after what was there, and each frame of it is a
/// request without entries, in the leader's name, term and group, that carries its commit
/// index and asks about the entry just before the next one the peer is to get.
pub proof fn law_batched_heartbeats_ask_about_the_peers_place(
    held: Seq<FrameOut>,
    now: Seq<FrameOut>,
    group_id: GroupId,
    leader: NodeModel,
    stored: StorageModel,
    peer: PeerId,
    i: int,
)
    requires
        added_frames(held, now, group_id, leader, stored, peer),
        0 <= i < now.len(),
    ensures
        i < held.len() ==> now[i] == held[i],
        i >= held.len() ==> {
            let f = now[i];
            let next = leader.progress[peer].next_index.0;
            &&& f.group_id == group_id && f.from == leader.node_id
            &&& f.ae.entry_count == 0
            &&& f.ae.term == leader.hard.current_term.0
            &&& f.ae.leader_id == leader.node_id.0
            &&& f.ae.leader_commit == leader.soft.commit_index.0
            &&& next > 0 ==> f.ae.prev_log_index + 1 == next
            &&& f.ae._pad == leader.probe
            &&& leader.progress.dom().contains(peer)
        },
{
    if i < held.len() {
        assert(now.take(held.len() as int)[i] == now[i]);
    }
}

} // verus!
