//! What becomes of a snapshot on its way from a leader to a follower's state machine.

use vstd::prelude::*;

use super::raft_node::NodeModel;
use super::snapshot::install_outcome;
use super::snapshot_install::{
    answer_outcome, is_chunk_message, lagging_outcome, restore_outcome, SnapshotStream, StreamStep,
};
use crate::error::RaftError;
use crate::protocol::codec::wire::{InstallSnapshot, InstallSnapshotResp};
use crate::state::{Role, SnapshotMeta};
use crate::traits::{MachineModel, StorageModel};
use crate::types::{LogIndex, PeerId, Term};

verus! {

/// The bytes that a follower holds of the snapshot that a chunk belongs to: those of a
/// transfer of the same snapshot that has not stalled, unless the chunk starts over.
pub open spec fn bytes_so_far(
    before: NodeModel,
    from: PeerId,
    msg: InstallSnapshot,
    now_ms: u64,
) -> Seq<u8> {
    let p = before.pending[from];
    if before.pending.dom().contains(from) && now_ms <= p.deadline_ms && msg.offset != 0
        && p.meta.last_included_index.0 == msg.last_included_index && p.meta.last_included_term.0
        == msg.last_included_term {
        p.bytes
    } else {
        Seq::empty()
    }
}

/// A follower takes a chunk only where it continues what it holds, and says how far that
/// is; it takes none that would outgrow the limit, none of an older term, and none from a
/// stranger, to whom it does not even answer. Until the last chunk nothing of it is
/// saved.
pub proof fn law_chunks_are_taken_in_order(
    before: NodeModel,
    stored: StorageModel,
    from: PeerId,
    msg: InstallSnapshot,
    payload: Seq<u8>,
    now_ms: u64,
    reply: Option<InstallSnapshotResp>,
    r: Result<(), RaftError>,
    after: NodeModel,
    stored_after: StorageModel,
)
    requires
        install_outcome(
            before,
            stored,
            from,
            msg,
            payload,
            now_ms,
            reply,
            r,
            after,
            stored_after,
        ),
        msg.term == before.hard.current_term.0,
    ensures
        ({
            let have = bytes_so_far(before, from, msg, now_ms);
            let sound = payload.len() % 0x1_0000_0000 == msg.chunk_len;
            let fits = have.len() + payload.len() <= before.limits.max_snapshot_bytes;
            &&& !sound ==> r is Err && reply is None && after == before && stored_after == stored
            &&& sound && !before.peers.contains(from) ==> {
                &&& r is Ok && reply is None
                &&& stored_after == stored
                &&& after.pending == before.pending && after.soft == before.soft
            }
            &&& sound && before.peers.contains(from) ==> {
                &&& after.soft.role == Role::Follower
                &&& !after.soft.is_leader
                &&& after.soft.leader_id == Some(PeerId(msg.leader_id))
                &&& after.hard == before.hard
                &&& reply matches Some(resp) ==> resp.term == before.hard.current_term.0
                &&& msg.offset != have.len() ==> {
                    &&& r is Ok
                    &&& reply is Some && reply->0.accepted == 0 && reply->0.next_offset
                        == have.len()
                    &&& stored_after == stored
                    &&& after.pending[from].bytes == have
                    &&& after.soft.commit_index == before.soft.commit_index
                }
                &&& msg.offset == have.len() && !fits ==> {
                    &&& r is Err
                    &&& reply is Some && reply->0.accepted == 0 && reply->0.next_offset == 0
                    &&& stored_after == stored
                    &&& !after.pending.dom().contains(from)
                }
                &&& msg.offset == have.len() && fits && msg.done == 0 ==> {
                    &&& r is Ok
                    &&& reply is Some && reply->0.accepted != 0 && reply->0.next_offset
                        == have.len() + payload.len()
                    &&& stored_after == stored
                    &&& after.pending.dom().contains(from)
                    &&& after.pending[from].bytes == have + payload
                    &&& after.pending[from].meta.last_included_index.0 == msg.last_included_index
                    &&& after.pending[from].meta.last_included_term.0 == msg.last_included_term
                    &&& after.pending[from].deadline_ms >= now_ms
                    &&& now_ms + before.limits.snapshot_stall_timeout_ms < u64::MAX
                        ==> after.pending[from].deadline_ms == now_ms
                        + before.limits.snapshot_stall_timeout_ms
                }
                &&& msg.offset == have.len() && fits && msg.done != 0 && r is Ok ==> {
                    &&& reply is Some && reply->0.accepted != 0 && reply->0.next_offset
                        == have.len() + payload.len()
                    &&& !after.pending.dom().contains(from)
                    &&& stored_after.snapshot is Some
                    &&& (stored_after.snapshot->0).1 == have + payload
                }
            }
        }),
{
}

/// A chunk of an older term is refused with the newer term and changes no transfer that
/// has not stalled; a newer term is adopted with the first chunk that comes with it.
pub proof fn law_chunks_carry_the_term(
    before: NodeModel,
    stored: StorageModel,
    from: PeerId,
    msg: InstallSnapshot,
    payload: Seq<u8>,
    now_ms: u64,
    reply: Option<InstallSnapshotResp>,
    r: Result<(), RaftError>,
    after: NodeModel,
    stored_after: StorageModel,
)
    requires
        install_outcome(
            before,
            stored,
            from,
            msg,
            payload,
            now_ms,
            reply,
            r,
            after,
            stored_after,
        ),
        before.peers.contains(from),
        payload.len() % 0x1_0000_0000 == msg.chunk_len,
    ensures
        msg.term < before.hard.current_term.0 ==> {
            &&& r is Ok
            &&& reply is Some && reply->0.accepted == 0 && reply->0.term
                == before.hard.current_term.0 && reply->0.next_offset == 0
            &&& stored_after == stored
            &&& after.soft == before.soft && after.hard == before.hard
            &&& forall|p: PeerId| #[trigger]
                after.pending.dom().contains(p) <==> before.pending.dom().contains(p) && now_ms
                    <= before.pending[p].deadline_ms
        },
        msg.term > before.hard.current_term.0 ==> {
            &&& after.hard.current_term.0 == msg.term
            &&& after.hard.voted_for is None
            &&& r is Ok ==> stored_after.hard_state == after.hard && after.soft.role
                == Role::Follower && after.soft.leader_id == Some(PeerId(msg.leader_id))
        },
        after.last_applied == before.last_applied,
{
}

/// What a follower's log is once the last chunk is in: everything that the snapshot
/// covers is gone, what lies past it stays, unless the log contradicts the snapshot at
/// its last entry, and then nothing does. The node counts as committed what the snapshot
/// covers, and starts its log right after it.
pub proof fn law_installed_snapshots_replace_the_log(
    before: NodeModel,
    stored: StorageModel,
    from: PeerId,
    msg: InstallSnapshot,
    payload: Seq<u8>,
    now_ms: u64,
    reply: Option<InstallSnapshotResp>,
    after: NodeModel,
    stored_after: StorageModel,
    i: int,
)
    requires
        install_outcome(
            before,
            stored,
            from,
            msg,
            payload,
            now_ms,
            reply,
            Ok(()),
            after,
            stored_after,
        ),
        before.peers.contains(from),
        payload.len() % 0x1_0000_0000 == msg.chunk_len,
        msg.term == before.hard.current_term.0,
        msg.done != 0,
        reply is Some && reply->0.accepted != 0,
        msg.last_included_index < u64::MAX,
        i > 0,
    ensures
        ({
            let at = msg.last_included_index as int;
            let contradicts = stored.log.dom().contains(at) && stored.log[at].term.0
                != msg.last_included_term;
            let cover = (LogIndex(msg.last_included_index), Term(msg.last_included_term));
            &&& stored_after.snapshot is Some
            &&& (stored_after.snapshot->0).0.last_included_index == cover.0
            &&& (stored_after.snapshot->0).0.last_included_term == cover.1
            &&& after.boundary == cover
            &&& i <= at || contradicts ==> !stored_after.log.dom().contains(i)
            &&& i > at && !contradicts ==> stored_after.log.dom().contains(i)
                == stored.log.dom().contains(i) && (stored.log.dom().contains(i)
                ==> stored_after.log[i] == stored.log[i])
            &&& after.last_log == if stored.tip.0.0 > at && !contradicts {
                stored.tip
            } else {
                cover
            }
            &&& after.soft.commit_index.0 >= at
            &&& after.soft.commit_index.0 >= before.soft.commit_index.0
            &&& after.soft.commit_index.0 == at || after.soft.commit_index
                == before.soft.commit_index
            &&& after.arena.terms.len() == 0
            &&& stored_after.hard_state == stored.hard_state
        }),
{
}

/// A leader's chunks cover its snapshot from front to back: each starts where the stream
/// stands and ends where the chunk size or the snapshot ends, and only the last one says
/// that it is.
pub proof fn law_chunks_cover_the_snapshot(
    m: NodeModel,
    stream: SnapshotStream,
    req: InstallSnapshot,
)
    requires
        stream.offset <= stream.total,
        is_chunk_message(req, m, stream),
        m.limits.snapshot_chunk_bytes <= u32::MAX,
    ensures
        req.term == m.hard.current_term.0,
        req.leader_id == m.node_id.0,
        req.last_included_index == stream.meta.last_included_index.0,
        req.last_included_term == stream.meta.last_included_term.0,
        req.offset == stream.offset,
        req.offset + req.chunk_len <= stream.total,
        req.chunk_len <= m.limits.snapshot_chunk_bytes || req.chunk_len <= 1,
        req.done != 0 <==> req.offset + req.chunk_len == stream.total,
        req.done == 0 ==> req.chunk_len == m.limits.snapshot_chunk_bytes || (req.chunk_len == 1
            && m.limits.snapshot_chunk_bytes == 0),
{
}

/// What an answer does to a stream: a newer term ends it, a position past the snapshot is
/// an error, and an acceptance that reaches the end completes it. Otherwise the stream
/// goes on from where the follower stands; it may stand still only so many times.
pub proof fn law_streams_follow_the_follower(
    before: NodeModel,
    stored: StorageModel,
    stream: SnapshotStream,
    resp: InstallSnapshotResp,
    r: Result<StreamStep, RaftError>,
    after: NodeModel,
    stored_after: StorageModel,
    next: SnapshotStream,
)
    requires
        stream.offset <= stream.total,
        answer_outcome(before, stored, stream, resp, r, after, stored_after, next),
    ensures
        ({
            let newer = resp.term > before.hard.current_term.0;
            let chunk = before.limits.snapshot_chunk_bytes as int;
            let last = stream.offset + chunk >= stream.total || (chunk == 0 && stream.offset + 1
                >= stream.total);
            let limit = before.limits.snapshot_max_attempts_per_peer as int;
            &&& newer ==> r is Err && next == stream
            &&& !newer ==> after == before && stored_after == stored
            &&& resp.next_offset > stream.total ==> r is Err && next == stream
            &&& r == Ok::<StreamStep, RaftError>(StreamStep::Installed) <==> !newer
                && resp.accepted != 0 && resp.next_offset <= stream.total && (last
                || resp.next_offset == stream.total)
            &&& r == Ok::<StreamStep, RaftError>(StreamStep::Send) ==> {
                &&& next.offset == resp.next_offset
                &&& next.total == stream.total && next.meta == stream.meta && next.peer
                    == stream.peer
                &&& resp.next_offset <= stream.offset ==> next.idle_rounds == stream.idle_rounds + 1
                    && next.idle_rounds < limit
                &&& resp.next_offset > stream.offset ==> next.idle_rounds == stream.idle_rounds
            }
            &&& !newer && resp.accepted == 0 && stream.offset < resp.next_offset <= stream.total
                ==> r == Ok::<StreamStep, RaftError>(StreamStep::Send)
        }),
{
}

/// A peer is sent the snapshot where its next entry is one that the snapshot covers, and
/// not otherwise. It is passed over until its cooldown is over, and goes into one when it
/// has used up its attempts; each attempt counts until it succeeds.
pub proof fn law_lagging_peers_get_the_snapshot(
    before: NodeModel,
    stored: StorageModel,
    peer: PeerId,
    now_ms: u64,
    r: Result<Option<(SnapshotMeta, Vec<u8>)>, RaftError>,
    after: NodeModel,
)
    requires
        lagging_outcome(before, stored, peer, now_ms, r, after),
        r is Ok,
    ensures
        ({
            let lags = before.progress.dom().contains(peer) && stored.snapshot is Some
                && before.progress[peer].next_index.0 <= (
            stored.snapshot->0).0.last_included_index.0;
            let known = before.attempts.dom().contains(peer);
            let rests = known && before.attempts[peer].cooldown_until is Some;
            let resting = rests && now_ms < before.attempts[peer].cooldown_until->0;
            let used = if known && !rests {
                before.attempts[peer].attempts as int
            } else {
                0
            };
            let limit = if before.limits.snapshot_max_attempts_per_peer == 0 {
                1
            } else {
                before.limits.snapshot_max_attempts_per_peer as int
            };
            &&& r->Ok_0 is Some <==> lags && !resting && used < limit
            &&& r->Ok_0 matches Some((meta, bytes)) ==> {
                &&& meta == (stored.snapshot->0).0
                &&& bytes@ == (stored.snapshot->0).1
                &&& after.attempts[peer].attempts == used + 1
                &&& after.attempts[peer].cooldown_until is None
            }
            &&& !lags ==> after == before
            &&& lags && resting ==> after.attempts == before.attempts
            &&& lags && !resting && used >= limit ==> {
                &&& after.attempts[peer].cooldown_until is Some
                &&& after.attempts[peer].cooldown_until->0 >= now_ms
                &&& now_ms + before.limits.snapshot_attempt_cooldown_ms <= u64::MAX
                    ==> after.attempts[peer].cooldown_until->0 == now_ms
                    + before.limits.snapshot_attempt_cooldown_ms
            }
            &&& after.progress == before.progress && after.soft == before.soft
        }),
{
}

/// Once a peer has the snapshot its failures are forgotten, it is known to have what the
/// snapshot covers, and replication goes on after that, as far as the leader's own log
/// reaches. Nothing that was known is taken back.
pub proof fn law_installed_peers_go_on_after_the_snapshot(
    m: NodeModel,
    peer: PeerId,
    at: LogIndex,
    p: PeerId,
)
    requires
        at.0 <= m.last_log.0.0 < u64::MAX,
    ensures
        ({
            let n = m.reanchored(peer, at);
            let was = m.progress[peer];
            let is = n.progress[peer];
            &&& !n.attempts.dom().contains(peer)
            &&& p != peer ==> n.attempts.dom().contains(p) == m.attempts.dom().contains(p)
            &&& n.progress.dom().contains(p) == m.progress.dom().contains(p)
            &&& p != peer ==> n.progress[p] == m.progress[p]
            &&& m.progress.dom().contains(peer) ==> {
                &&& is.match_index.0 >= at.0 && is.match_index.0 >= was.match_index.0
                &&& is.match_index == at || is.match_index == was.match_index
                &&& is.next_index.0 > at.0 && is.next_index.0 >= was.next_index.0
                &&& is.next_index.0 == at.0 + 1 || is.next_index == was.next_index
            }
            &&& n.soft == m.soft && n.hard == m.hard && n.last_log == m.last_log
        }),
{
}

/// A state machine is restored exactly where the saved snapshot is ahead of what it has
/// applied; it then holds the snapshot's state and nothing on top of it, and everything
/// that the snapshot covers counts as committed and applied, with nothing owed to the
/// next compaction.
pub proof fn law_restores_bring_the_machine_to_the_snapshot(
    before: NodeModel,
    stored: StorageModel,
    machine: MachineModel,
    done: bool,
    after: NodeModel,
    stored_after: StorageModel,
    machine_after: MachineModel,
    i: int,
)
    requires
        restore_outcome(before, stored, machine, Ok(done), after, stored_after, machine_after),
    ensures
        done <==> stored.snapshot is Some && (stored.snapshot->0).0.last_included_index.0
            > before.last_applied.0,
        !done ==> after == before && stored_after == stored && machine_after == machine,
        done ==> {
            let meta = (stored.snapshot->0).0;
            let at = meta.last_included_index.0;
            let contradicts = stored.log.dom().contains(at as int) && stored.log[at as int].term
                != meta.last_included_term;
            &&& machine_after.image == Some((stored.snapshot->0).1)
            &&& machine_after.applied.len() == 0
            &&& after.last_applied.0 == at
            &&& after.soft.commit_index.0 >= at && after.soft.commit_index.0
                >= before.soft.commit_index.0
            &&& after.boundary == (meta.last_included_index, meta.last_included_term)
            &&& after.hard == before.hard
            &&& after.debt_entries == 0 && after.debt_bytes == 0
            &&& stored_after.snapshot == stored.snapshot
            &&& at < u64::MAX && 0 < i <= at ==> !stored_after.log.dom().contains(i)
            &&& at < u64::MAX && i > at && !contradicts ==> stored_after.log.dom().contains(i)
                == stored.log.dom().contains(i)
        },
{
}

} // verus!
