//! What holds of snapshot transfers as a whole.

use vstd::prelude::*;

use super::raft_node::NodeModel;
use super::progress::deadline;
use super::replication::response::after;
use super::snapshot::{
    chunk_fault, chunk_outcome, cut_to, install_outcome, is_snapshot_response, meta_of,
    uncovered_tip,
};
use super::snapshot_install::{
    answer_outcome, is_chunk_message, restore_outcome, SnapshotStream, StreamStep,
};
use crate::error::RaftError;
use crate::protocol::codec::wire::{InstallSnapshot, InstallSnapshotResp};
use crate::state::SnapshotMeta;
use crate::traits::{is_tip, MachineModel, StorageModel};
use crate::types::{LogIndex, PeerId, Term};

verus! {

/// Chunks reassemble: a follower that holds the first `offset` bytes of a
/// snapshot and takes the leader's next chunk holds the first `end` bytes, and
/// asks for the rest; with the last chunk it has saved exactly the snapshot.
pub proof fn law_chunks_reassemble(
    leader: NodeModel,
    stream: SnapshotStream,
    snapshot: Seq<u8>,
    req: InstallSnapshot,
    from: PeerId,
    before: NodeModel,
    stored: StorageModel,
    now_ms: u64,
    reply: Option<InstallSnapshotResp>,
    r: Result<(), RaftError>,
    end_state: NodeModel,
    stored_after: StorageModel,
)
    requires
        stream.wf(),
        stream.total == snapshot.len(),
        snapshot.len() <= before.limits.max_snapshot_bytes,
        is_chunk_message(req, leader, stream),
        stream.offset != 0 ==> before.pending.dom().contains(from) && before.pending[from].meta
            == stream.meta && before.pending[from].bytes == snapshot.take(stream.offset as int),
        chunk_outcome(
            before,
            stored,
            from,
            req,
            snapshot.subrange(stream.offset as int, stream.end(leader.chunk_bytes())),
            now_ms,
            reply,
            r,
            end_state,
            stored_after,
        ),
    ensures
        ({
            let end = stream.end(leader.chunk_bytes());
            &&& stream.offset < stream.total ==> stream.offset < end
            &&& end < stream.total ==> {
                &&& r is Ok
                &&& end_state.pending.dom().contains(from)
                &&& end_state.pending[from].meta == stream.meta
                &&& end_state.pending[from].bytes == snapshot.take(end)
                &&& reply matches Some(resp) && is_snapshot_response(
                    resp,
                    before.hard.current_term,
                    true,
                    end,
                )
            }
            &&& end == stream.total && r is Ok ==> stored_after.snapshot == Some(
                (stream.meta, snapshot),
            )
        }),
{
    let end = stream.end(leader.chunk_bytes());
    let payload = snapshot.subrange(stream.offset as int, end);
    let p = before.transfer_for(from, stream.meta, req.offset, now_ms);
    assert(p.bytes =~= snapshot.take(stream.offset as int));
    assert(p.bytes + payload =~= snapshot.take(end));
    assert(snapshot.take(snapshot.len() as int) =~= snapshot);
}

/// A stream ends: every answer after which it goes on either moves it forward,
/// or uses up one of a limited number of idle rounds.
pub proof fn law_streams_end(
    before: NodeModel,
    stored: StorageModel,
    stream: SnapshotStream,
    resp: InstallSnapshotResp,
    end_state: NodeModel,
    stored_after: StorageModel,
    next: SnapshotStream,
)
    requires
        stream.wf(),
        answer_outcome(
            before,
            stored,
            stream,
            resp,
            Ok(StreamStep::Send),
            end_state,
            stored_after,
            next,
        ),
    ensures
        next.wf(),
        next.total == stream.total,
        (next.idle_rounds == stream.idle_rounds && next.offset > stream.offset) || (
        next.idle_rounds == stream.idle_rounds + 1 && next.idle_rounds < before.attempt_limit()),
{
}

/// Whether no transfer holds more than the configured limit.
pub open spec fn transfers_bounded(m: NodeModel) -> bool {
    forall|p: PeerId| #[trigger]
        m.pending.dom().contains(p) ==> m.pending[p].bytes.len() <= m.limits.max_snapshot_bytes
}

/// No chunk makes a transfer grow past the limit, and a chunk from a stranger
/// leaves every transfer as it was.
pub proof fn law_transfers_stay_bounded(
    before: NodeModel,
    stored: StorageModel,
    from: PeerId,
    msg: InstallSnapshot,
    payload: Seq<u8>,
    now_ms: u64,
    reply: Option<InstallSnapshotResp>,
    r: Result<(), RaftError>,
    end_state: NodeModel,
    stored_after: StorageModel,
)
    requires
        transfers_bounded(before),
        install_outcome(
            before,
            stored,
            from,
            msg,
            payload,
            now_ms,
            reply,
            r,
            end_state,
            stored_after,
        ),
    ensures
        transfers_bounded(end_state),
        !before.peers.contains(from) ==> end_state.pending == before.pending,
{
}

/// A chunk never takes back a term or a commit, and it keeps the node well
/// formed.
pub proof fn law_installs_keep_promises(
    before: NodeModel,
    stored: StorageModel,
    from: PeerId,
    msg: InstallSnapshot,
    payload: Seq<u8>,
    now_ms: u64,
    reply: Option<InstallSnapshotResp>,
    r: Result<(), RaftError>,
    end_state: NodeModel,
    stored_after: StorageModel,
)
    requires
        install_outcome(
            before,
            stored,
            from,
            msg,
            payload,
            now_ms,
            reply,
            r,
            end_state,
            stored_after,
        ),
    ensures
        end_state.hard.current_term.0 >= before.hard.current_term.0,
        end_state.soft.commit_index.0 >= before.soft.commit_index.0,
        end_state.last_applied == before.last_applied,
        before.wf() ==> end_state.wf(),
{
}

/// A peer that has the snapshot no longer lags behind it, and its progress
/// stays within the leader's log.
pub proof fn law_installed_peers_move_on(m: NodeModel, peer: PeerId, meta: SnapshotMeta)
    requires
        m.progress.dom().contains(peer),
        m.progress[peer].match_index.0 <= m.last_log.0.0,
        m.progress[peer].next_index.0 <= after(m.last_log.0.0),
    ensures
        ({
            let n = m.reanchored(peer, meta.last_included_index);
            &&& n.progress[peer].match_index.0 <= m.last_log.0.0
            &&& n.progress[peer].next_index.0 <= after(m.last_log.0.0)
            &&& n.progress[peer].match_index.0 >= m.progress[peer].match_index.0
            &&& n.progress[peer].next_index.0 >= m.progress[peer].next_index.0
            &&& meta.last_included_index.0 <= m.last_log.0.0 && meta.last_included_index.0
                < u64::MAX ==> !n.lags_behind(peer, meta)
        }),
{
}

/// A peer that has used up its attempts is refused until its cooldown has
/// passed, and then starts with a fresh budget.
pub proof fn law_exhausted_peers_sit_out(m: NodeModel, peer: PeerId, now_ms: u64, later: u64)
    requires
        !m.cooling_down(peer, now_ms),
        m.failures(peer) >= m.attempt_limit(),
    ensures
        ({
            let n = m.install_weighed(peer, now_ms);
            let end = deadline(now_ms, m.limits.snapshot_attempt_cooldown_ms);
            &&& !m.install_allowed(peer, now_ms)
            &&& n.install_allowed(peer, later) <==> later >= end
            &&& later >= end ==> n.failures(peer) == 0
        }),
{
}

/// A peer is never tried more often than the limit without a success.
pub proof fn law_attempts_are_capped(m: NodeModel, peer: PeerId, now_ms: u64)
    requires
        m.attempts_of(peer).attempts <= m.attempt_limit(),
    ensures
        m.install_weighed(peer, now_ms).attempts_of(peer).attempts <= m.attempt_limit(),
{
}

/// A restore happens once: after it, a second one from the same snapshot does
/// nothing.
pub proof fn law_restore_happens_once(
    before: NodeModel,
    meta: SnapshotMeta,
    tip: (LogIndex, Term),
    bytes: Seq<u8>,
    stored: StorageModel,
    machine: MachineModel,
    r: Result<bool, RaftError>,
    end_state: NodeModel,
    stored_after: StorageModel,
    machine_after: MachineModel,
)
    requires
        stored.snapshot == Some((meta, bytes)),
        restore_outcome(
            before.restored(meta, tip),
            stored,
            machine,
            r,
            end_state,
            stored_after,
            machine_after,
        ),
    ensures
        r matches Ok(done) ==> !done,
        end_state == before.restored(meta, tip),
        stored_after == stored,
        machine_after == machine,
{
}

/// A restore keeps the node well formed: nothing uncommitted counts as applied.
pub proof fn law_restore_keeps_order(
    before: NodeModel,
    meta: SnapshotMeta,
    tip: (LogIndex, Term),
)
    requires
        before.wf(),
        meta.last_included_index.0 > before.last_applied.0,
    ensures
        before.restored(meta, tip).wf(),
        before.restored(meta, tip).last_applied == meta.last_included_index,
        before.restored(meta, tip).soft.commit_index.0 >= before.soft.commit_index.0,
{
}

/// One chunk that arrived, and what came of it.
pub struct Arrival {
    pub msg: InstallSnapshot,
    pub payload: Seq<u8>,
    pub now_ms: u64,
    pub reply: Option<InstallSnapshotResp>,
    pub r: Result<(), RaftError>,
}

/// The bytes of the first `k` chunks.
pub open spec fn received(chunks: Seq<Arrival>, k: nat) -> Seq<u8>
    decreases k,
{
    if k == 0 {
        Seq::empty()
    } else {
        received(chunks, (k - 1) as nat) + chunks[k - 1].payload
    }
}

/// Whether chunk number `j` arrived at its place in a stream from the leader of
/// `term`, and came out over a storage that did not fail.
pub open spec fn arrived_in_place(
    nodes: Seq<NodeModel>,
    stores: Seq<StorageModel>,
    from: PeerId,
    meta: SnapshotMeta,
    term: u64,
    leader: u64,
    chunks: Seq<Arrival>,
    j: int,
) -> bool {
    let c = chunks[j];
    &&& meta_of(c.msg) == meta
    &&& c.msg.term == term
    &&& c.msg.leader_id == leader
    &&& c.msg.offset == received(chunks, j as nat).len()
    &&& c.msg.chunk_len == c.payload.len()
    &&& (c.msg.done != 0) == (j == chunks.len() - 1)
    &&& j > 0 ==> c.now_ms <= deadline(
        chunks[j - 1].now_ms,
        nodes[0].limits.snapshot_stall_timeout_ms,
    )
    &&& install_outcome(
        nodes[j],
        stores[j],
        from,
        c.msg,
        c.payload,
        c.now_ms,
        c.reply,
        c.r,
        nodes[j + 1],
        stores[j + 1],
    )
    &&& c.r is Err ==> chunk_fault(nodes[j], from, c.msg, c.payload, c.now_ms)
}

/// Whether a whole stream arrived in order from a member, in time, within the
/// limit, and over a storage that did not fail.
pub open spec fn arrived_in_order(
    nodes: Seq<NodeModel>,
    stores: Seq<StorageModel>,
    from: PeerId,
    meta: SnapshotMeta,
    term: u64,
    leader: u64,
    chunks: Seq<Arrival>,
) -> bool {
    &&& chunks.len() > 0
    &&& nodes.len() == chunks.len() + 1
    &&& stores.len() == chunks.len() + 1
    &&& term >= nodes[0].hard.current_term.0
    &&& nodes[0].peers.contains(from)
    &&& received(chunks, chunks.len()).len() <= nodes[0].limits.max_snapshot_bytes
    &&& forall|j: int|
        0 <= j < chunks.len() ==> #[trigger] arrived_in_place(
            nodes,
            stores,
            from,
            meta,
            term,
            leader,
            chunks,
            j,
        )
}

proof fn lemma_received_grows(chunks: Seq<Arrival>, j: nat, k: nat)
    requires
        j <= k,
    ensures
        received(chunks, j).len() <= received(chunks, k).len(),
    decreases k,
{
    if j < k {
        lemma_received_grows(chunks, j, (k - 1) as nat);
    }
}

/// A stream before its last chunk: what has arrived is held, and nothing is saved.
proof fn lemma_stream_so_far(
    nodes: Seq<NodeModel>,
    stores: Seq<StorageModel>,
    from: PeerId,
    meta: SnapshotMeta,
    term: u64,
    leader: u64,
    chunks: Seq<Arrival>,
    k: nat,
)
    requires
        arrived_in_order(nodes, stores, from, meta, term, leader, chunks),
        k < chunks.len(),
    ensures
        nodes[k as int].limits == nodes[0].limits,
        nodes[k as int].peers == nodes[0].peers,
        nodes[k as int].soft.commit_index == nodes[0].soft.commit_index,
        stores[k as int].snapshot == stores[0].snapshot,
        k == 0 || {
            let m = nodes[k as int];
            &&& m.hard.current_term.0 == term
            &&& m.pending.dom().contains(from)
            &&& m.pending[from].meta == meta
            &&& m.pending[from].bytes == received(chunks, k)
            &&& m.pending[from].deadline_ms == deadline(
                chunks[k - 1].now_ms,
                nodes[0].limits.snapshot_stall_timeout_ms,
            )
            &&& chunks[k - 1].r is Ok
            &&& chunks[k - 1].reply matches Some(resp) && is_snapshot_response(
                resp,
                Term(term),
                true,
                received(chunks, k).len() as int,
            )
        },
    decreases k,
{
    if k > 0 {
        let j = k - 1;
        lemma_stream_so_far(nodes, stores, from, meta, term, leader, chunks, j as nat);
        assert(arrived_in_place(nodes, stores, from, meta, term, leader, chunks, j));
        lemma_received_grows(chunks, k, chunks.len());
        lemma_transfer_goes_on(nodes, stores, from, meta, term, leader, chunks, j as nat);
    }
}

/// The transfer that chunk number `j` belongs to holds the chunks before it, and
/// the chunk is not at fault.
proof fn lemma_transfer_goes_on(
    nodes: Seq<NodeModel>,
    stores: Seq<StorageModel>,
    from: PeerId,
    meta: SnapshotMeta,
    term: u64,
    leader: u64,
    chunks: Seq<Arrival>,
    j: nat,
)
    requires
        arrived_in_order(nodes, stores, from, meta, term, leader, chunks),
        j < chunks.len(),
        nodes[j as int].limits == nodes[0].limits,
        nodes[j as int].peers == nodes[0].peers,
        j == 0 || {
            let m = nodes[j as int];
            &&& m.hard.current_term.0 == term
            &&& m.pending.dom().contains(from)
            &&& m.pending[from].meta == meta
            &&& m.pending[from].bytes == received(chunks, j)
            &&& m.pending[from].deadline_ms == deadline(
                chunks[j - 1].now_ms,
                nodes[0].limits.snapshot_stall_timeout_ms,
            )
        },
    ensures
        ({
            let c = chunks[j as int];
            let m = nodes[j as int].swept(c.now_ms).receiving_from(c.msg);
            let p = m.transfer_for(from, meta, c.msg.offset, c.now_ms);
            &&& p.meta == meta
            &&& p.bytes == received(chunks, j)
            &&& p.bytes + c.payload == received(chunks, j + 1)
            &&& p.bytes.len() + c.payload.len() <= m.limits.max_snapshot_bytes
            &&& !chunk_fault(nodes[j as int], from, c.msg, c.payload, c.now_ms)
        }),
{
    assert(arrived_in_place(nodes, stores, from, meta, term, leader, chunks, j as int));
    lemma_received_grows(chunks, j + 1, chunks.len());
    let c = chunks[j as int];
    let m = nodes[j as int].swept(c.now_ms).receiving_from(c.msg);
    let p = m.transfer_for(from, meta, c.msg.offset, c.now_ms);
    assert(p.bytes =~= received(chunks, j)) by {
        if c.msg.offset == 0 {
            assert(received(chunks, j) =~= Seq::<u8>::empty());
        }
    }
    assert(received(chunks, j + 1) == received(chunks, j) + c.payload);
}

/// A stream that arrives in order over a storage that does not fail is installed:
/// every chunk is accepted and acknowledged up to its end, nothing is saved before
/// the last one, and then the whole snapshot is, once; the commit index reaches it,
/// and the node follows the leader that sent it.
pub proof fn law_streams_are_installed(
    nodes: Seq<NodeModel>,
    stores: Seq<StorageModel>,
    from: PeerId,
    meta: SnapshotMeta,
    term: u64,
    leader: u64,
    chunks: Seq<Arrival>,
    j: int,
)
    requires
        arrived_in_order(nodes, stores, from, meta, term, leader, chunks),
        0 <= j < chunks.len(),
    ensures
        chunks[j].r is Ok,
        chunks[j].reply matches Some(resp) && is_snapshot_response(
            resp,
            Term(term),
            true,
            received(chunks, (j + 1) as nat).len() as int,
        ),
        stores[j].snapshot == stores[0].snapshot,
        ({
            let n = chunks.len() as int;
            let end = nodes[n];
            &&& stores[n].snapshot == Some((meta, received(chunks, chunks.len())))
            &&& end.soft.commit_index.0 == if nodes[0].soft.commit_index.0
                < meta.last_included_index.0 {
                meta.last_included_index.0
            } else {
                nodes[0].soft.commit_index.0
            }
            &&& end.soft.role is Follower
            &&& end.soft.leader_id == Some(PeerId(leader))
        }),
{
    let last = (chunks.len() - 1) as nat;
    lemma_stream_so_far(nodes, stores, from, meta, term, leader, chunks, j as nat);
    if j < last {
        lemma_stream_so_far(nodes, stores, from, meta, term, leader, chunks, (j + 1) as nat);
    }
    lemma_stream_so_far(nodes, stores, from, meta, term, leader, chunks, last);
    lemma_transfer_goes_on(nodes, stores, from, meta, term, leader, chunks, last);
    assert(arrived_in_place(nodes, stores, from, meta, term, leader, chunks, last as int));
}

/// The tip that a node remembers once it is seated at a snapshot is the one that
/// the storage reports.
pub proof fn law_seated_tips_are_the_storages(
    stored: StorageModel,
    meta: SnapshotMeta,
    cut: StorageModel,
)
    requires
        is_tip(stored.tip, stored.log, stored.snapshot),
        forall|i: int| #[trigger] stored.log.dom().contains(i) ==> 1 <= i <= u64::MAX,
        meta.last_included_index.0 < u64::MAX,
        stored.tip.0.0 > meta.last_included_index.0 ==> stored.log.dom().contains(
            stored.tip.0.0 as int,
        ),
        cut_to(stored, meta, cut),
        cut.snapshot matches Some((m, _)) && m == meta,
    ensures
        uncovered_tip(stored, meta) == cut.tip,
{
    let at = meta.last_included_index.0 as int;
    if stored.log.dom().contains(at) && stored.log[at].term != meta.last_included_term {
        assert(cut.log.dom() =~= Set::<int>::empty());
    } else if stored.tip.0.0 > at {
        assert(cut.log.dom().contains(stored.tip.0.0 as int));
        assert(cut.log.dom() != Set::<int>::empty());
        assert(stored.log.dom().contains(cut.tip.0.0 as int));
    } else {
        assert(cut.log.dom() =~= Set::<int>::empty()) by {
            assert forall|i: int| !cut.log.dom().contains(i) by {
                if cut.log.dom().contains(i) {
                    assert(stored.log.dom().contains(i));
                    assert(stored.log.dom() != Set::<int>::empty());
                }
            }
        }
    }
}

} // verus!
