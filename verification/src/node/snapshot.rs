//! Snapshot transfer: the leader streams chunks, the follower gathers and
//! installs them.

use vstd::prelude::*;

use super::metrics::{bumped, RaftMetricsSnapshot};
use super::progress::{deadline, PendingModel, PendingSnapshot};
use super::quorum::contains;
use super::raft_node::{saved, step_down_outcome, NodeModel, RaftNode};
use super::replication::response::after;
use crate::entry::EntryRecord;
use crate::error::RaftError;
use crate::protocol::codec::wire::{InstallSnapshot, InstallSnapshotResp};
use crate::state::{Role, SnapshotMeta, SoftState};
use crate::text::{decimal, text, text_number_text};
use crate::traits::{log_before, log_from, is_tip, refused_cleanly, RaftStorage, StorageModel};
use crate::types::{LogIndex, PeerId, Term};

verus! {

/// What remains of a log once a snapshot up to `meta` covers it. Where the log
/// contradicts the snapshot, nothing does.
pub open spec fn uncovered(log: Map<int, EntryRecord>, meta: SnapshotMeta) -> Map<
    int,
    EntryRecord,
> {
    let at = meta.last_included_index.0 as int;
    if log.dom().contains(at) && log[at].term != meta.last_included_term {
        log_before(log, 1)
    } else {
        log_from(log, after(meta.last_included_index.0) as int)
    }
}

/// Where the log ends once a snapshot up to `meta` covers it: where it ended, if
/// that is past the snapshot, or else at the boundary.
pub open spec fn uncovered_tip(stored: StorageModel, meta: SnapshotMeta) -> (LogIndex, Term) {
    let at = meta.last_included_index.0 as int;
    if stored.tip.0.0 > at && !(stored.log.dom().contains(at) && stored.log[at].term
        != meta.last_included_term) {
        stored.tip
    } else {
        (meta.last_included_index, meta.last_included_term)
    }
}

/// Whether `after` is `stored` without what a snapshot up to `meta` covers.
pub open spec fn cut_to(stored: StorageModel, meta: SnapshotMeta, after: StorageModel) -> bool {
    &&& after.log == uncovered(stored.log, meta)
    &&& after.hard_state == stored.hard_state
    &&& after.snapshot == stored.snapshot
    &&& is_tip(after.tip, after.log, after.snapshot)
}

/// What a storage holds once a snapshot was saved.
pub open spec fn with_snapshot(
    stored: StorageModel,
    meta: SnapshotMeta,
    bytes: Seq<u8>,
) -> StorageModel {
    StorageModel { snapshot: Some((meta, bytes)), ..stored }
}

/// What a snapshot message says its snapshot covers.
pub open spec fn meta_of(msg: InstallSnapshot) -> SnapshotMeta {
    SnapshotMeta {
        last_included_index: LogIndex(msg.last_included_index),
        last_included_term: Term(msg.last_included_term),
    }
}

/// An answer to a chunk.
pub open spec fn is_snapshot_response(
    resp: InstallSnapshotResp,
    term: Term,
    accepted: bool,
    next_offset: int,
) -> bool {
    &&& resp.term == term.0
    &&& resp.accepted == if accepted {
        1u8
    } else {
        0u8
    }
    &&& resp.next_offset == next_offset
    &&& resp._pad@ == seq![0u8, 0, 0, 0, 0, 0, 0]
}

fn snapshot_response(term: Term, accepted: bool, next_offset: u64) -> (r: InstallSnapshotResp)
    ensures
        is_snapshot_response(r, term, accepted, next_offset as int),
{
    let r = InstallSnapshotResp {
        term: term.0,
        accepted: if accepted {
            1
        } else {
            0
        },
        next_offset,
        _pad: [0, 0, 0, 0, 0, 0, 0],
    };
    assert(r._pad@ =~= seq![0u8, 0, 0, 0, 0, 0, 0]);
    r
}

impl NodeModel {
    /// The node as a follower of the leader that sends the snapshot.
    pub open spec fn receiving_from(self, msg: InstallSnapshot) -> NodeModel {
        let m = self.caught_up_with(msg.term);
        NodeModel {
            soft: SoftState {
                role: Role::Follower,
                is_leader: false,
                leader_id: Some(PeerId(msg.leader_id)),
                commit_index: m.soft.commit_index,
            },
            ..m
        }
    }

    /// The transfer that a chunk at `offset` belongs to: the one under way, or
    /// a new one where the chunk is the first, the snapshot is another one, or
    /// none is under way.
    pub open spec fn transfer_for(
        self,
        from: PeerId,
        meta: SnapshotMeta,
        offset: u64,
        now_ms: u64,
    ) -> PendingModel {
        if self.pending.dom().contains(from) && offset != 0 && self.pending[from].meta == meta {
            self.pending[from]
        } else {
            PendingModel {
                meta,
                bytes: Seq::empty(),
                deadline_ms: deadline(now_ms, self.limits.snapshot_stall_timeout_ms),
            }
        }
    }

    /// The node with `p` as the transfer from `from`.
    pub open spec fn with_transfer(self, from: PeerId, p: PendingModel) -> NodeModel {
        NodeModel { pending: self.pending.insert(from, p), ..self }
    }

    /// The node without a transfer from `from`.
    pub open spec fn without_transfer(self, from: PeerId) -> NodeModel {
        NodeModel { pending: self.pending.remove(from), ..self }
    }

    /// The node with everything up to `index` committed. The commit index never
    /// goes back.
    pub open spec fn committed_through(self, index: LogIndex) -> NodeModel {
        if self.soft.commit_index.0 < index.0 {
            self.committed_to(index)
        } else {
            self
        }
    }

    /// The node with its log starting right after the snapshot and ending at
    /// `tip`.
    pub open spec fn seated_at(self, meta: SnapshotMeta, tip: (LogIndex, Term)) -> NodeModel {
        NodeModel {
            arena: self.arena.cleared(after(meta.last_included_index.0)),
            last_log: tip,
            boundary: (meta.last_included_index, meta.last_included_term),
            ..self
        }
    }

    /// The node with one more frame dropped.
    pub open spec fn frame_dropped(self) -> NodeModel {
        NodeModel {
            counters: RaftMetricsSnapshot {
                frames_dropped_nonfatal: bumped(self.counters.frames_dropped_nonfatal),
                ..self.counters
            },
            ..self
        }
    }
}

/// How the installation of a complete transfer came out.
pub open spec fn completion_outcome(
    before: NodeModel,
    stored: StorageModel,
    meta: SnapshotMeta,
    bytes: Seq<u8>,
    r: Result<(), RaftError>,
    after: NodeModel,
    stored_after: StorageModel,
) -> bool {
    match r {
        Ok(()) => {
            &&& after == before.committed_through(meta.last_included_index).seated_at(
                meta,
                uncovered_tip(stored, meta),
            )
            &&& cut_to(with_snapshot(stored, meta, bytes), meta, stored_after)
        },
        Err(e) => {
            ||| after == before && refused_cleanly(e, stored, stored_after)
            ||| after == before.committed_through(meta.last_included_index) && refused_cleanly(
                e,
                with_snapshot(stored, meta, bytes),
                stored_after,
            )
        },
    }
}

/// How a chunk that the node takes as a follower came out.
pub open spec fn chunk_outcome(
    before: NodeModel,
    stored: StorageModel,
    from: PeerId,
    msg: InstallSnapshot,
    payload: Seq<u8>,
    now_ms: u64,
    reply: Option<InstallSnapshotResp>,
    r: Result<(), RaftError>,
    after: NodeModel,
    stored_after: StorageModel,
) -> bool {
    let p = before.transfer_for(from, meta_of(msg), msg.offset, now_ms);
    let bytes = p.bytes + payload;
    let term = before.hard.current_term;
    if p.bytes.len() != msg.offset {
        &&& r is Ok
        &&& reply matches Some(resp) && is_snapshot_response(
            resp,
            term,
            false,
            p.bytes.len() as int,
        )
        &&& after == before.with_transfer(from, p)
        &&& stored_after == stored
    } else if bytes.len() > before.limits.max_snapshot_bytes {
        &&& r matches Err(RaftError::Snapshot(m)) && m@
            == "install snapshot exceeds max_snapshot_bytes ("@ + decimal(
            before.limits.max_snapshot_bytes as nat,
        ) + ")"@
        &&& reply matches Some(resp) && is_snapshot_response(resp, term, false, 0)
        &&& after == before.without_transfer(from)
        &&& stored_after == stored
    } else if msg.done == 0 {
        &&& r is Ok
        &&& reply matches Some(resp) && is_snapshot_response(
            resp,
            term,
            true,
            bytes.len() as int,
        )
        &&& after == before.with_transfer(
            from,
            PendingModel {
                meta: p.meta,
                bytes,
                deadline_ms: deadline(now_ms, before.limits.snapshot_stall_timeout_ms),
            },
        )
        &&& stored_after == stored
    } else {
        &&& completion_outcome(
            before.without_transfer(from),
            stored,
            p.meta,
            bytes,
            r,
            after,
            stored_after,
        )
        &&& r is Ok ==> (reply matches Some(resp) && is_snapshot_response(
            resp,
            term,
            true,
            bytes.len() as int,
        ))
        &&& r is Err ==> reply is None
    }
}

/// How a chunk came out. A chunk whose length field is wrong is an error; one
/// from a stranger is dropped, so that a stranger cannot make the node buffer
/// anything; one of an older term is refused.
pub open spec fn install_outcome(
    before: NodeModel,
    stored: StorageModel,
    from: PeerId,
    msg: InstallSnapshot,
    payload: Seq<u8>,
    now_ms: u64,
    reply: Option<InstallSnapshotResp>,
    r: Result<(), RaftError>,
    after: NodeModel,
    stored_after: StorageModel,
) -> bool {
    let m = before.swept(now_ms);
    if payload.len() % 0x1_0000_0000 != msg.chunk_len {
        &&& r matches Err(e) && e.is_protocol("install snapshot chunk_len mismatch"@)
        &&& reply is None
        &&& after == before
        &&& stored_after == stored
    } else if !before.peers.contains(from) {
        &&& r is Ok
        &&& reply is None
        &&& after == before.frame_dropped()
        &&& stored_after == stored
    } else if msg.term < before.hard.current_term.0 {
        &&& r is Ok
        &&& reply matches Some(resp) && is_snapshot_response(
            resp,
            before.hard.current_term,
            false,
            0,
        )
        &&& after == m
        &&& stored_after == stored
    } else if msg.term == before.hard.current_term.0 {
        chunk_outcome(
            m.receiving_from(msg),
            stored,
            from,
            msg,
            payload,
            now_ms,
            reply,
            r,
            after,
            stored_after,
        )
    } else {
        ||| reply is None && r is Err && step_down_outcome(
            m,
            stored,
            Term(msg.term),
            r,
            after,
            stored_after,
        )
        ||| chunk_outcome(
            m.receiving_from(msg),
            saved(stored, m.at_term(Term(msg.term)).hard),
            from,
            msg,
            payload,
            now_ms,
            reply,
            r,
            after,
            stored_after,
        )
    }
}

/// Whether a chunk is at fault itself, so that it is an error over any storage:
/// its length field is wrong, or its transfer outgrows the limit.
pub open spec fn chunk_fault(
    before: NodeModel,
    from: PeerId,
    msg: InstallSnapshot,
    payload: Seq<u8>,
    now_ms: u64,
) -> bool {
    let m = before.swept(now_ms).receiving_from(msg);
    let p = m.transfer_for(from, meta_of(msg), msg.offset, now_ms);
    ||| payload.len() % 0x1_0000_0000 != msg.chunk_len
    ||| {
        &&& before.peers.contains(from)
        &&& msg.term >= before.hard.current_term.0
        &&& p.bytes.len() == msg.offset
        &&& p.bytes.len() + payload.len() > before.limits.max_snapshot_bytes
    }
}

impl RaftNode {
    /// Drops from the log what the snapshot covers, or all of it where it
    /// contradicts the snapshot, moves the log's start to the boundary, and its
    /// tip too unless entries past the boundary remain.
    pub fn seat_at_snapshot<S: RaftStorage>(&mut self, storage: &mut S, meta: SnapshotMeta) -> (r:
        Result<(), RaftError>)
        ensures
            match r {
                Ok(()) => {
                    &&& final(self)@ == old(self)@.seated_at(
                        meta,
                        uncovered_tip(old(storage).model(), meta),
                    )
                    &&& cut_to(old(storage).model(), meta, final(storage).model())
                },
                Err(e) => {
                    &&& S::fails_with(e)
                    &&& final(self)@ == old(self)@
                    &&& refused_cleanly(e, old(storage).model(), final(storage).model())
                },
            },
    {
        let last_idx = meta.last_included_index;
        let last_term = meta.last_included_term;
        let conflict: bool = match storage.term_at(last_idx) {
            Err(e) => {
                return Err(e);
            },
            Ok(Some(t)) => t != last_term,
            Ok(None) => false,
        };
        let tip: (LogIndex, Term) = match storage.last_log_position() {
            Err(e) => {
                return Err(e);
            },
            Ok(tip) => tip,
        };
        let base = LogIndex(last_idx.0.saturating_add(1));
        let cut = if conflict {
            storage.truncate_suffix(LogIndex(1))
        } else {
            storage.truncate_before(base)
        };
        match cut {
            Err(e) => {
                return Err(e);
            },
            Ok(()) => {},
        }
        self.log_metadata.clear(base);
        self.cached_last_log = if tip.0.0 > last_idx.0 && !conflict {
            tip
        } else {
            (last_idx, last_term)
        };
        self.snapshot_boundary = (last_idx, last_term);
        Ok(())
    }

    /// Makes a complete transfer durable and moves the log to it.
    fn complete_install<S: RaftStorage>(&mut self, storage: &mut S, completed: PendingSnapshot) -> (r:
        Result<(), RaftError>)
        ensures
            completion_outcome(
                old(self)@,
                old(storage).model(),
                completed.meta,
                completed.bytes@,
                r,
                final(self)@,
                final(storage).model(),
            ),
            r matches Err(e) ==> S::fails_with(e),
    {
        match storage.save_snapshot(&completed.meta, &completed.bytes) {
            Err(e) => {
                return Err(e);
            },
            Ok(()) => {},
        }
        assert(storage.model() =~= with_snapshot(
            old(storage).model(),
            completed.meta,
            completed.bytes@,
        ));
        if self.soft_state.commit_index.0 < completed.meta.last_included_index.0 {
            self.set_commit_index(completed.meta.last_included_index);
        }
        self.seat_at_snapshot(storage, completed.meta)
    }

    /// Takes the transfer that a chunk belongs to out of the pending ones.
    fn take_transfer(&mut self, from: PeerId, meta: SnapshotMeta, offset: u64, now_ms: u64) -> (r:
        PendingSnapshot)
        ensures
            r@ == old(self)@.transfer_for(from, meta, offset, now_ms),
            final(self)@ == old(self)@.without_transfer(from),
    {
        let stall: u64 = self.config.limits.snapshot_stall_timeout_ms;
        let held = self.pending_snapshots.remove(from);
        assert(self@.pending =~= old(self)@.pending.remove(from));
        match held {
            Some(mut p) => {
                if offset == 0 || p.meta != meta {
                    p.reset(meta, now_ms, stall);
                    assert(p.bytes@ =~= Seq::empty());
                }
                p
            },
            None => {
                let p = PendingSnapshot::new(meta, now_ms, stall);
                assert(p.bytes@ =~= Seq::empty());
                p
            },
        }
    }

    /// Takes a chunk as a follower of its sender.
    fn take_chunk<S: RaftStorage>(
        &mut self,
        storage: &mut S,
        from: PeerId,
        msg: &InstallSnapshot,
        payload: &[u8],
        now_ms: u64,
    ) -> (r: (Option<InstallSnapshotResp>, Result<(), RaftError>))
        ensures
            chunk_outcome(
                old(self)@,
                old(storage).model(),
                from,
                *msg,
                payload@,
                now_ms,
                r.0,
                r.1,
                final(self)@,
                final(storage).model(),
            ),
            r.1 matches Err(e) ==> S::fails_with(e) || ({
                let p = old(self)@.transfer_for(from, meta_of(*msg), msg.offset, now_ms);
                &&& p.bytes.len() == msg.offset
                &&& p.bytes.len() + payload@.len() > old(self)@.limits.max_snapshot_bytes
            }),
    {
        let meta = SnapshotMeta {
            last_included_index: LogIndex(msg.last_included_index),
            last_included_term: Term(msg.last_included_term),
        };
        let term = self.hard_state.current_term;
        let mut p = self.take_transfer(from, meta, msg.offset, now_ms);
        let ghost begun = p@;
        let ghost rest = self@.pending;
        if p.bytes.len() as u64 != msg.offset {
            let next: u64 = p.bytes.len() as u64;
            self.pending_snapshots.insert(from, p);
            assert(self@.pending =~= rest.insert(from, begun));
            assert(rest.insert(from, begun) =~= old(self)@.pending.insert(from, begun));
            return (Some(snapshot_response(term, false, next)), Ok(()));
        }
        let max: usize = self.config.limits.max_snapshot_bytes;
        let fits: bool = match p.bytes.len().checked_add(payload.len()) {
            Some(total) => total <= max,
            None => false,
        };
        if !fits {
            return (
                Some(snapshot_response(term, false, 0)),
                Err(
                    RaftError::Snapshot(
                        text_number_text(
                            "install snapshot exceeds max_snapshot_bytes (",
                            max as u64,
                            ")",
                        ),
                    ),
                ),
            );
        }
        p.bytes.extend_from_slice(payload);
        p.touch(now_ms, self.config.limits.snapshot_stall_timeout_ms);
        assert(p.bytes@ =~= begun.bytes + payload@);
        let next: u64 = p.bytes.len() as u64;
        if msg.done != 0 {
            match self.complete_install(storage, p) {
                Err(e) => {
                    return (None, Err(e));
                },
                Ok(()) => {},
            }
        } else {
            let ghost grown = p@;
            self.pending_snapshots.insert(from, p);
            assert(self@.pending =~= rest.insert(from, grown));
            assert(rest.insert(from, grown) =~= old(self)@.pending.insert(from, grown));
        }
        (Some(snapshot_response(term, true, next)), Ok(()))
    }

    /// Takes one chunk of a snapshot: what to answer, and how it went. A
    /// transfer over the limit is answered and is an error too.
    pub fn handle_install_snapshot<S: RaftStorage>(
        &mut self,
        storage: &mut S,
        from: PeerId,
        msg: &InstallSnapshot,
        payload: &[u8],
        now_ms: u64,
    ) -> (r: (Option<InstallSnapshotResp>, Result<(), RaftError>))
        ensures
            install_outcome(
                old(self)@,
                old(storage).model(),
                from,
                *msg,
                payload@,
                now_ms,
                r.0,
                r.1,
                final(self)@,
                final(storage).model(),
            ),
            r.1 matches Err(e) ==> S::fails_with(e) || chunk_fault(
                old(self)@,
                from,
                *msg,
                payload@,
                now_ms,
            ),
    {
        if payload.len() as u64 % 0x1_0000_0000 != msg.chunk_len as u64 {
            return (None, Err(RaftError::Protocol(text("install snapshot chunk_len mismatch"))));
        }
        if !contains(&self.config.peers, from) {
            self.metrics.inc_frames_dropped_nonfatal();
            return (None, Ok(()));
        }
        self.evict_stalled_snapshots(now_ms);
        if msg.term < self.hard_state.current_term.0 {
            return (Some(snapshot_response(self.hard_state.current_term, false, 0)), Ok(()));
        }
        if msg.term > self.hard_state.current_term.0 {
            match self.step_down(storage, Term(msg.term)) {
                Err(e) => {
                    return (None, Err(e));
                },
                Ok(()) => {},
            }
        }
        self.soft_state.role = Role::Follower;
        self.soft_state.is_leader = false;
        self.soft_state.leader_id = Some(PeerId(msg.leader_id));
        assert(self@ == old(self)@.swept(now_ms).receiving_from(*msg));
        self.take_chunk(storage, from, msg, payload, now_ms)
    }

    /// Gives way to the term of an answer that belongs to no install under way.
    pub fn handle_install_snapshot_response<S: RaftStorage>(
        &mut self,
        storage: &mut S,
        resp: &InstallSnapshotResp,
    ) -> (r: Result<(), RaftError>)
        ensures
            resp.term > old(self)@.hard.current_term.0 ==> step_down_outcome(
                old(self)@,
                old(storage).model(),
                Term(resp.term),
                r,
                final(self)@,
                final(storage).model(),
            ),
            resp.term <= old(self)@.hard.current_term.0 ==> r is Ok && final(self)@ == old(self)@
                && final(storage).model() == old(storage).model(),
            r matches Err(e) ==> S::fails_with(e),
    {
        if resp.term > self.hard_state.current_term.0 {
            self.step_down(storage, Term(resp.term))
        } else {
            Ok(())
        }
    }
}

} // verus!
