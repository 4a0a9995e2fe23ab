//! Streaming a snapshot to a peer that has fallen behind the log, and restoring
//! the state machine from one.

use vstd::prelude::*;

use super::metrics::{bumped, RaftMetricsSnapshot};
use super::progress::{deadline, PeerProgress, SnapshotAttempts};
use super::raft_node::{step_down_outcome, NodeModel, RaftNode};
use super::replication::response::{after, larger, smaller};
use super::snapshot::{cut_to, uncovered_tip};
use crate::error::RaftError;
use crate::protocol::codec::wire::{InstallSnapshot, InstallSnapshotResp};
use crate::protocol::message::{InboundRaftMessage, RaftMessage};
use crate::state::SnapshotMeta;
use crate::text::text;
use crate::traits::{refused_cleanly, MachineModel, RaftStorage, StateMachine, StorageModel};
use crate::types::{LogIndex, PeerId, Term};

verus! {

/// A snapshot on its way to a peer.
#[derive(Clone, Copy, Debug)]
pub struct SnapshotStream {
    pub peer: PeerId,
    pub meta: SnapshotMeta,
    /// The length of the snapshot.
    pub total: usize,
    /// Where the next chunk starts.
    pub offset: usize,
    /// The term in which the stream began.
    pub term: Term,
    /// Answers so far that did not move the stream forward.
    pub idle_rounds: u32,
    /// How long to wait for an answer, in milliseconds.
    pub timeout_ms: u64,
}

/// What happened while the leader waited for an answer to a chunk.
#[derive(Clone, Copy, Debug)]
pub enum StreamEvent {
    /// The peer answered.
    Answer(InstallSnapshotResp),
    /// Some other message arrived, and the node has dealt with it.
    Other,
    /// Nothing arrived in time.
    Silence,
}

/// What a stream does next.
#[derive(Clone, Copy, Debug, PartialEq, Eq, Structural)]
pub enum StreamStep {
    /// Send the next chunk.
    Send,
    /// Wait on.
    Wait,
    /// The peer has the snapshot.
    Installed,
}

impl SnapshotStream {
    pub open spec fn wf(self) -> bool {
        self.offset <= self.total
    }

    /// Where the next chunk ends, for chunks of at most `chunk` bytes.
    pub open spec fn end(self, chunk: int) -> int {
        if self.offset + chunk < self.total {
            self.offset + chunk
        } else {
            self.total as int
        }
    }

    /// The answer in a frame to the chunk under way, if it is one: it comes from
    /// the peer that the snapshot goes to.
    pub fn answer(&self, inbound: &InboundRaftMessage<'_>) -> (r: Option<InstallSnapshotResp>)
        ensures
            r == match inbound.message {
                RaftMessage::InstallSnapshotResp(resp) => if inbound.from == self.peer {
                    Some(resp)
                } else {
                    None
                },
                _ => None,
            },
    {
        match inbound.message {
            RaftMessage::InstallSnapshotResp(resp) => if inbound.from == self.peer {
                Some(resp)
            } else {
                None
            },
            _ => None,
        }
    }
}

impl NodeModel {
    /// The largest chunk, in bytes.
    pub open spec fn chunk_bytes(self) -> int {
        if self.limits.snapshot_chunk_bytes == 0 {
            1
        } else {
            self.limits.snapshot_chunk_bytes as int
        }
    }

    /// How many failed installs, and how many idle rounds of one, a peer has.
    pub open spec fn attempt_limit(self) -> u32 {
        if self.limits.snapshot_max_attempts_per_peer == 0 {
            1
        } else {
            self.limits.snapshot_max_attempts_per_peer
        }
    }

    /// The record of failed installs to `peer`.
    pub open spec fn attempts_of(self, peer: PeerId) -> SnapshotAttempts {
        if self.attempts.dom().contains(peer) {
            self.attempts[peer]
        } else {
            SnapshotAttempts { attempts: 0, cooldown_until: None }
        }
    }

    /// Whether `peer` sits out its cooldown.
    pub open spec fn cooling_down(self, peer: PeerId, now_ms: u64) -> bool {
        self.attempts_of(peer).cooldown_until matches Some(until) && now_ms < until
    }

    /// How many failures still count: a cooldown that has passed forgives them.
    pub open spec fn failures(self, peer: PeerId) -> u32 {
        if self.attempts_of(peer).cooldown_until is Some {
            0
        } else {
            self.attempts_of(peer).attempts
        }
    }

    /// The node with another record of failed installs to `peer`.
    pub open spec fn with_attempts(self, peer: PeerId, record: SnapshotAttempts) -> NodeModel {
        NodeModel { attempts: self.attempts.insert(peer, record), ..self }
    }

    /// The node with one more install refused.
    pub open spec fn install_refused(self) -> NodeModel {
        NodeModel {
            counters: RaftMetricsSnapshot {
                snapshot_installs_refused: bumped(self.counters.snapshot_installs_refused),
                ..self.counters
            },
            ..self
        }
    }

    /// Whether `peer` needs entries that only the snapshot still covers.
    pub open spec fn lags_behind(self, peer: PeerId, meta: SnapshotMeta) -> bool {
        self.progress.dom().contains(peer) && self.progress[peer].next_index.0
            <= meta.last_included_index.0
    }

    /// The node once the request for an install has been weighed: a peer in
    /// cooldown is refused, one that has used up its attempts goes into
    /// cooldown, and for any other the attempt counts from the start.
    pub open spec fn install_weighed(self, peer: PeerId, now_ms: u64) -> NodeModel {
        if self.cooling_down(peer, now_ms) {
            self.install_refused()
        } else if self.failures(peer) >= self.attempt_limit() {
            self.with_attempts(
                peer,
                SnapshotAttempts {
                    attempts: self.failures(peer),
                    cooldown_until: Some(
                        deadline(now_ms, self.limits.snapshot_attempt_cooldown_ms),
                    ),
                },
            ).install_refused()
        } else {
            self.with_attempts(
                peer,
                SnapshotAttempts {
                    attempts: (self.failures(peer) + 1) as u32,
                    cooldown_until: None,
                },
            )
        }
    }

    /// Whether an install to `peer` may be tried.
    pub open spec fn install_allowed(self, peer: PeerId, now_ms: u64) -> bool {
        !self.cooling_down(peer, now_ms) && self.failures(peer) < self.attempt_limit()
    }

    /// The node once `peer` has the snapshot up to `boundary`: its failures are
    /// forgotten, and replication goes on after the boundary, as far as the
    /// leader's own log reaches.
    pub open spec fn reanchored(self, peer: PeerId, boundary: LogIndex) -> NodeModel {
        let m = NodeModel { attempts: self.attempts.remove(peer), ..self };
        if !self.progress.dom().contains(peer) {
            m
        } else {
            let p = self.progress[peer];
            NodeModel {
                progress: self.progress.insert(
                    peer,
                    PeerProgress {
                        next_index: LogIndex(
                            larger(
                                p.next_index.0,
                                smaller(after(boundary.0), after(self.last_log.0.0)),
                            ),
                        ),
                        match_index: LogIndex(
                            larger(p.match_index.0, smaller(boundary.0, self.last_log.0.0)),
                        ),
                    },
                ),
                ..m
            }
        }
    }

    /// The node once its state machine was restored from the snapshot.
    pub open spec fn restored(self, meta: SnapshotMeta, tip: (LogIndex, Term)) -> NodeModel {
        let m = self.committed_through(meta.last_included_index);
        NodeModel {
            last_applied: meta.last_included_index,
            debt_entries: 0,
            debt_bytes: 0,
            ..m.seated_at(meta, tip)
        }
    }
}

/// The chunk message for the bytes from `offset` to `end`.
pub open spec fn is_chunk_message(
    req: InstallSnapshot,
    m: NodeModel,
    stream: SnapshotStream,
) -> bool {
    let end = stream.end(m.chunk_bytes());
    &&& req.term == m.hard.current_term.0
    &&& req.leader_id == m.node_id.0
    &&& req.last_included_index == stream.meta.last_included_index.0
    &&& req.last_included_term == stream.meta.last_included_term.0
    &&& req.offset == stream.offset
    &&& req.chunk_len == (end - stream.offset) % 0x1_0000_0000
    &&& req.done == if end == stream.total {
        1u8
    } else {
        0u8
    }
    &&& req._pad@ == seq![0u8, 0, 0]
}

/// The stream after an answer that does not end it.
pub open spec fn moved(stream: SnapshotStream, next_offset: u64) -> SnapshotStream {
    SnapshotStream {
        offset: next_offset as usize,
        idle_rounds: if next_offset > stream.offset {
            stream.idle_rounds
        } else {
            (stream.idle_rounds + 1) as u32
        },
        ..stream
    }
}

/// How an answer to a chunk came out for the leader.
pub open spec fn answer_outcome(
    before: NodeModel,
    stored: StorageModel,
    stream: SnapshotStream,
    resp: InstallSnapshotResp,
    r: Result<StreamStep, RaftError>,
    after: NodeModel,
    stored_after: StorageModel,
    stream_after: SnapshotStream,
) -> bool {
    let term = Term(resp.term);
    if resp.term > before.hard.current_term.0 {
        match r {
            Ok(_) => false,
            Err(e) => {
                ||| e == (RaftError::TermChanged { current: term }) && step_down_outcome(
                    before,
                    stored,
                    term,
                    Ok(()),
                    after,
                    stored_after,
                ) && stream_after == stream
                ||| step_down_outcome(before, stored, term, Err(e), after, stored_after)
                    && stream_after == stream
            },
        }
    } else {
        &&& after == before
        &&& stored_after == stored
        &&& if resp.next_offset > stream.total {
            &&& r matches Err(e) && e.is_protocol("install snapshot next_offset past total"@)
            &&& stream_after == stream
        } else if resp.accepted != 0 && (stream.end(before.chunk_bytes()) == stream.total
            || resp.next_offset >= stream.total) {
            &&& r == Ok::<StreamStep, RaftError>(StreamStep::Installed)
            &&& stream_after == (SnapshotStream { offset: resp.next_offset as usize, ..stream })
        } else if resp.next_offset <= stream.offset && stream.idle_rounds + 1
            >= before.attempt_limit() {
            &&& r matches Err(RaftError::Snapshot(m)) && m@ == "install snapshot made no progress"@
            &&& stream_after == stream
        } else {
            &&& r == Ok::<StreamStep, RaftError>(StreamStep::Send)
            &&& stream_after == moved(stream, resp.next_offset)
        }
    }
}

/// What failed in a restore, and how far it had come by then: the storage before
/// anything changed, the state machine where the snapshot is ahead of it, or the
/// storage once the state machine was restored and the cursors were moved.
pub open spec fn restore_failure<S: RaftStorage, M: StateMachine>(
    e: RaftError,
    before: NodeModel,
    stored: StorageModel,
    machine: MachineModel,
    after: NodeModel,
    stored_after: StorageModel,
    machine_after: MachineModel,
) -> bool {
    ||| {
        &&& S::fails_with(e)
        &&& after == before
        &&& stored_after == stored
        &&& machine_after == machine
    }
    ||| {
        &&& stored.snapshot matches Some((meta, bytes))
        &&& meta.last_included_index.0 > before.last_applied.0
        &&& if after == before {
            M::fails_with(e) && stored_after == stored
        } else {
            &&& S::fails_with(e)
            &&& after == (NodeModel {
                last_applied: meta.last_included_index,
                ..before.committed_through(meta.last_included_index)
            })
            &&& machine_after == (MachineModel { image: Some(bytes), applied: Seq::empty() })
            &&& refused_cleanly(e, stored, stored_after)
        }
    }
}

/// How the state machine's restore came out.
pub open spec fn restore_outcome(
    before: NodeModel,
    stored: StorageModel,
    machine: MachineModel,
    r: Result<bool, RaftError>,
    after: NodeModel,
    stored_after: StorageModel,
    machine_after: MachineModel,
) -> bool {
    match stored.snapshot {
        None => {
            &&& r matches Ok(done) ==> !done
            &&& after == before
            &&& stored_after == stored
            &&& machine_after == machine
        },
        Some((meta, bytes)) => if meta.last_included_index.0 <= before.last_applied.0 {
            &&& r matches Ok(done) ==> !done
            &&& after == before
            &&& stored_after == stored
            &&& machine_after == machine
        } else {
            match r {
                Ok(done) => {
                    &&& done
                    &&& after == before.restored(meta, uncovered_tip(stored, meta))
                    &&& machine_after == (MachineModel {
                        image: Some(bytes),
                        applied: Seq::empty(),
                    })
                    &&& cut_to(stored, meta, stored_after)
                },
                Err(e) => {
                    ||| after == before && stored_after == stored
                    ||| {
                        &&& after == (NodeModel {
                            last_applied: meta.last_included_index,
                            ..before.committed_through(meta.last_included_index)
                        })
                        &&& machine_after == (MachineModel {
                            image: Some(bytes),
                            applied: Seq::empty(),
                        })
                        &&& refused_cleanly(e, stored, stored_after)
                    }
                },
            }
        },
    }
}

/// How the question whether `peer` is to be sent the snapshot came out.
pub open spec fn lagging_outcome(
    before: NodeModel,
    stored: StorageModel,
    peer: PeerId,
    now_ms: u64,
    r: Result<Option<(SnapshotMeta, Vec<u8>)>, RaftError>,
    after: NodeModel,
) -> bool {
    &&& !before.progress.dom().contains(peer) ==> (r is Ok && r->Ok_0 is None)
    &&& match stored.snapshot {
        Some((meta, bytes)) => if before.lags_behind(peer, meta) {
            let weighed = before.install_weighed(peer, now_ms);
            match r {
                Ok(found) => {
                    &&& after == weighed
                    &&& if before.install_allowed(peer, now_ms) {
                        found matches Some((m, b)) && m == meta && b@ == bytes
                    } else {
                        found is None
                    }
                },
                Err(_) => after == before || (after == weighed && before.install_allowed(
                    peer,
                    now_ms,
                )),
            }
        } else {
            after == before && (r matches Ok(found) ==> found is None)
        },
        None => after == before && (r matches Ok(found) ==> found is None),
    }
}

impl RaftNode {
    /// Begins to stream a snapshot of `total` bytes to `peer`. Only a leader
    /// does.
    pub fn start_stream(&self, peer: PeerId, meta: SnapshotMeta, total: usize) -> (r: Result<
        SnapshotStream,
        RaftError,
    >)
        requires
            self@.timing.heartbeat_ms * 2 <= u64::MAX,
        ensures
            !self@.leads() ==> (r matches Err(e) && self@.is_not_leader_error(e)),
            self@.leads() ==> (r matches Ok(s) && s == (SnapshotStream {
                peer,
                meta,
                total,
                offset: 0,
                term: self@.hard.current_term,
                idle_rounds: 0,
                timeout_ms: (self@.timing.heartbeat_ms * 2) as u64,
            })),
    {
        if !self.is_leader() {
            return Err(self.not_leader_error());
        }
        Ok(
            SnapshotStream {
                peer,
                meta,
                total,
                offset: 0,
                term: self.hard_state.current_term,
                idle_rounds: 0,
                timeout_ms: self.config.timing.heartbeat_ms * 2,
            },
        )
    }

    /// The next chunk of the stream: the message, and where its bytes end.
    pub fn next_chunk(&self, stream: &SnapshotStream) -> (r: (InstallSnapshot, usize))
        requires
            stream.wf(),
        ensures
            r.1 == stream.end(self@.chunk_bytes()),
            stream.offset <= r.1 <= stream.total,
            is_chunk_message(r.0, self@, *stream),
    {
        let end: usize = self.chunk_end(stream);
        let len: u64 = (end - stream.offset) as u64;
        let req = InstallSnapshot {
            term: self.hard_state.current_term.0,
            leader_id: self.config.node_id.0,
            last_included_index: stream.meta.last_included_index.0,
            last_included_term: stream.meta.last_included_term.0,
            offset: stream.offset as u64,
            chunk_len: (len % 0x1_0000_0000) as u32,
            done: if end == stream.total {
                1
            } else {
                0
            },
            _pad: [0, 0, 0],
        };
        assert(req._pad@ =~= seq![0u8, 0, 0]);
        (req, end)
    }

    fn chunk_end(&self, stream: &SnapshotStream) -> (r: usize)
        requires
            stream.wf(),
        ensures
            r == stream.end(self@.chunk_bytes()),
    {
        let chunk: usize = if self.config.limits.snapshot_chunk_bytes == 0 {
            1
        } else {
            self.config.limits.snapshot_chunk_bytes
        };
        match stream.offset.checked_add(chunk) {
            Some(end) => if end < stream.total {
                end
            } else {
                stream.total
            },
            None => stream.total,
        }
    }

    fn attempt_limit(&self) -> (r: u32)
        ensures
            r == self@.attempt_limit(),
    {
        if self.config.limits.snapshot_max_attempts_per_peer == 0 {
            1
        } else {
            self.config.limits.snapshot_max_attempts_per_peer
        }
    }

    /// Moves the stream on. A newer term ends it, and so does silence, the loss
    /// of leadership, an offset past the end, or too many rounds without
    /// progress.
    pub fn stream_step<S: RaftStorage>(
        &mut self,
        storage: &mut S,
        stream: &mut SnapshotStream,
        event: StreamEvent,
    ) -> (r: Result<StreamStep, RaftError>)
        requires
            old(stream).wf(),
        ensures
            final(stream).wf(),
            match event {
                StreamEvent::Answer(resp) => answer_outcome(
                    old(self)@,
                    old(storage).model(),
                    *old(stream),
                    resp,
                    r,
                    final(self)@,
                    final(storage).model(),
                    *final(stream),
                ),
                StreamEvent::Other => {
                    &&& final(self)@ == old(self)@
                    &&& final(storage).model() == old(storage).model()
                    &&& *final(stream) == *old(stream)
                    &&& if old(self)@.leads() && old(self)@.hard.current_term == old(
                        stream,
                    ).term {
                        r == Ok::<StreamStep, RaftError>(StreamStep::Wait)
                    } else {
                        r matches Err(e) && old(self)@.is_not_leader_error(e)
                    }
                },
                StreamEvent::Silence => {
                    &&& final(self)@ == old(self)@
                    &&& final(storage).model() == old(storage).model()
                    &&& *final(stream) == *old(stream)
                    &&& r matches Err(RaftError::NoQuorum)
                },
            },
            event matches StreamEvent::Answer(resp) ==> (resp.term
                > old(self)@.hard.current_term.0 ==> (r matches Err(e) && (S::fails_with(e) || e
                == (RaftError::TermChanged { current: Term(resp.term) })))),
    {
        let resp: InstallSnapshotResp = match event {
            StreamEvent::Silence => {
                return Err(RaftError::NoQuorum);
            },
            StreamEvent::Other => {
                return if self.is_leader() && self.hard_state.current_term == stream.term {
                    Ok(StreamStep::Wait)
                } else {
                    Err(self.not_leader_error())
                };
            },
            StreamEvent::Answer(resp) => resp,
        };
        if resp.term > self.hard_state.current_term.0 {
            return match self.step_down(storage, Term(resp.term)) {
                Err(e) => Err(e),
                Ok(()) => Err(RaftError::TermChanged { current: self.hard_state.current_term }),
            };
        }
        let done: bool = self.chunk_end(stream) == stream.total;
        if resp.next_offset > stream.total as u64 {
            return Err(RaftError::Protocol(text("install snapshot next_offset past total")));
        }
        let next: usize = resp.next_offset as usize;
        if resp.accepted != 0 && (done || next >= stream.total) {
            stream.offset = next;
            return Ok(StreamStep::Installed);
        }
        if next <= stream.offset {
            if stream.idle_rounds >= self.attempt_limit() - 1 {
                return Err(RaftError::Snapshot(text("install snapshot made no progress")));
            }
            stream.idle_rounds = stream.idle_rounds + 1;
        }
        stream.offset = next;
        Ok(StreamStep::Send)
    }
}

impl RaftNode {
    /// Weighs whether `peer` gets a snapshot: the snapshot to stream, where the
    /// peer has fallen behind the saved one and may be tried.
    pub fn snapshot_for_lagging_peer<S: RaftStorage>(
        &mut self,
        storage: &S,
        peer: PeerId,
        now_ms: u64,
    ) -> (r: Result<Option<(SnapshotMeta, Vec<u8>)>, RaftError>)
        ensures
            lagging_outcome(old(self)@, storage.model(), peer, now_ms, r, final(self)@),
            r matches Err(e) ==> S::fails_with(e),
    {
        let next: LogIndex = match self.peer_progress.get(peer) {
            Some(p) => p.next_index,
            None => {
                return Ok(None);
            },
        };
        let meta: SnapshotMeta = match storage.load_snapshot_meta() {
            Err(e) => {
                return Err(e);
            },
            Ok(None) => {
                return Ok(None);
            },
            Ok(Some(meta)) => meta,
        };
        if next.0 > meta.last_included_index.0 {
            return Ok(None);
        }
        let limit: u32 = self.attempt_limit();
        let cooldown: u64 = self.config.limits.snapshot_attempt_cooldown_ms;
        let mut record: SnapshotAttempts = match self.snapshot_attempts.get(peer) {
            Some(found) => *found,
            None => SnapshotAttempts::default(),
        };
        match record.cooldown_until {
            Some(until) => {
                if now_ms < until {
                    self.metrics.inc_snapshot_installs_refused();
                    return Ok(None);
                }
                record = SnapshotAttempts::default();
            },
            None => {},
        }
        if record.attempts >= limit {
            record.cooldown_until = Some(now_ms.saturating_add(cooldown));
            self.snapshot_attempts.insert(peer, record);
            self.metrics.inc_snapshot_installs_refused();
            return Ok(None);
        }
        record.attempts = record.attempts + 1;
        self.snapshot_attempts.insert(peer, record);
        storage.load_snapshot()
    }

    /// Records that `peer` has the snapshot up to `boundary`.
    pub fn snapshot_installed(&mut self, peer: PeerId, boundary: LogIndex)
        ensures
            final(self)@ == old(self)@.reanchored(peer, boundary),
    {
        self.snapshot_attempts.remove(peer);
        let last: u64 = self.cached_last_log.0.0;
        let matched: u64 = if boundary.0 < last {
            boundary.0
        } else {
            last
        };
        let past: u64 = boundary.0.saturating_add(1);
        let tip: u64 = last.saturating_add(1);
        let next: u64 = if past < tip {
            past
        } else {
            tip
        };
        let progress: Option<PeerProgress> = match self.peer_progress.get(peer) {
            Some(p) => Some(*p),
            None => None,
        };
        match progress {
            Some(mut p) => {
                if matched > p.match_index.0 {
                    p.match_index = LogIndex(matched);
                }
                if next > p.next_index.0 {
                    p.next_index = LogIndex(next);
                }
                self.peer_progress.insert(peer, p);
            },
            None => {},
        }
    }

    /// Restores the state machine from the saved snapshot where that is ahead
    /// of what has been applied, and moves the applied cursor and the log to
    /// it. Says whether it did.
    pub fn restore_state_machine_from_snapshot<S: RaftStorage, M: StateMachine>(
        &mut self,
        storage: &mut S,
        machine: &mut M,
    ) -> (r: Result<bool, RaftError>)
        ensures
            restore_outcome(
                old(self)@,
                old(storage).model(),
                old(machine).model(),
                r,
                final(self)@,
                final(storage).model(),
                final(machine).model(),
            ),
            r matches Err(e) ==> restore_failure::<S, M>(
                e,
                old(self)@,
                old(storage).model(),
                old(machine).model(),
                final(self)@,
                final(storage).model(),
                final(machine).model(),
            ),
    {
        let meta: SnapshotMeta = match storage.load_snapshot_meta() {
            Err(e) => {
                return Err(e);
            },
            Ok(None) => {
                return Ok(false);
            },
            Ok(Some(meta)) => meta,
        };
        if meta.last_included_index.0 <= self.last_applied.0 {
            return Ok(false);
        }
        let bytes: Vec<u8> = match storage.load_snapshot() {
            Err(e) => {
                return Err(e);
            },
            Ok(None) => {
                return Ok(false);
            },
            Ok(Some((_, bytes))) => bytes,
        };
        match machine.restore(&bytes) {
            Err(e) => {
                return Err(e);
            },
            Ok(()) => {},
        }
        if self.soft_state.commit_index.0 < meta.last_included_index.0 {
            self.set_commit_index(meta.last_included_index);
        }
        self.set_last_applied(meta.last_included_index);
        match self.seat_at_snapshot(storage, meta) {
            Err(e) => {
                return Err(e);
            },
            Ok(()) => {},
        }
        self.compaction_debt_entries = 0;
        self.compaction_debt_bytes = 0;
        Ok(true)
    }
}

} // verus!
