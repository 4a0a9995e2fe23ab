//! Heartbeats.

use vstd::prelude::*;

use super::response::before;
use super::shared::{append_request_spec, is_unsendable, looked_up};
use crate::entry::LogEntry;
use crate::error::RaftError;
use crate::node::raft_node::{NodeModel, RaftNode};
use crate::protocol::codec::wire::AppendEntries;
use crate::traits::{may_fail, RaftStorage, StorageModel};
use crate::types::{LogIndex, PeerId, Term};

verus! {

/// What one peer gets in a round of heartbeats.
#[derive(Clone, Copy, Debug)]
pub enum HeartbeatStep {
    /// A request without entries.
    Bare(AppendEntries),
    /// The entries it lacks.
    Repair,
    /// A snapshot: the entries it lacks are no longer in the log.
    Escalate,
    /// Nothing this time.
    Skip,
}

/// How the attempt to install a snapshot on a peer came out.
#[derive(Clone, Copy, Debug, PartialEq, Eq, Structural)]
pub enum SnapshotEscalation {
    /// The snapshot was streamed.
    Streamed,
    /// An install was not called for or not allowed.
    Refused,
    /// An install was tried and failed.
    Failed,
}

impl NodeModel {
    /// Whether `peer` lacks entries of the leader's log.
    pub open spec fn behind(self, peer: PeerId) -> bool {
        self.progress.dom().contains(peer) && self.progress[peer].next_index.0
            <= self.last_log.0.0
    }
}

/// How building a heartbeat for `peer` came out.
pub open spec fn heartbeat_built(
    m: NodeModel,
    stored: StorageModel,
    peer: PeerId,
    r: Result<Option<AppendEntries>, RaftError>,
    after: NodeModel,
) -> bool {
    if !m.progress.dom().contains(peer) {
        (r matches Err(RaftError::PeerUnknown(p)) && p == peer) && after == m
    } else {
        let prev = before(m.progress[peer].next_index.0);
        match r {
            Ok(Some(req)) => {
                let term = Term(req.prev_log_term);
                &&& req == append_request_spec(m, LogIndex(prev), term, 0)
                &&& match m.known_term_at(prev) {
                    Some(t) => t == term && after == m,
                    None => stored.term_of(prev as int) == Some(term) && after
                        == m.remembering(prev, term),
                }
            },
            Ok(None) => false,
            Err(_) => looked_up(m, stored, prev, after),
        }
    }
}

/// Whether a heartbeat for `peer` may be out of reach: the storage may fail, the
/// peer is not tracked, or the entry before its next one is gone from the log and
/// neither the tip nor the boundary of the snapshot.
pub open spec fn out_of_reach<S: RaftStorage>(
    m: NodeModel,
    stored: StorageModel,
    peer: PeerId,
) -> bool {
    let prev = before(m.progress[peer].next_index.0);
    ||| may_fail::<S>()
    ||| !m.progress.dom().contains(peer)
    ||| {
        &&& prev != 0
        &&& stored.term_of(prev as int) is None
        &&& m.last_log.0.0 != prev
        &&& m.boundary.0.0 != prev
    }
}

/// How the choice of what `peer` gets in a round came out.
pub open spec fn heartbeat_outcome<S: RaftStorage>(
    m: NodeModel,
    stored: StorageModel,
    peer: PeerId,
    escalated: bool,
    now_ms: u64,
    r: HeartbeatStep,
    after: NodeModel,
) -> bool {
    if m.behind(peer) {
        let next = m.progress[peer].next_index.0 as int;
        &&& after == m
        &&& r is Repair || (stored.term_of(next) is None && (r is Skip <==> escalated) && (
        r is Escalate <==> !escalated))
        &&& stored.term_of(next) is Some ==> r is Repair
        &&& stored.term_of(next) is None && r is Repair ==> may_fail::<S>()
    } else if !m.leads() {
        r is Skip && after == m
    } else {
        let ready = m.with_progress_started(now_ms);
        match r {
            HeartbeatStep::Bare(req) => heartbeat_built(ready, stored, peer, Ok(Some(req)), after),
            HeartbeatStep::Skip => {
                &&& out_of_reach::<S>(ready, stored, peer)
                &&& if ready.progress.dom().contains(peer) {
                    looked_up(ready, stored, before(ready.progress[peer].next_index.0), after)
                } else {
                    after == ready
                }
            },
            _ => false,
        }
    }
}

impl RaftNode {
    /// The request without entries after `prev`.
    pub fn heartbeat_request(&self, prev: LogIndex, prev_term: Term) -> (r: AppendEntries)
        ensures
            r == append_request_spec(self@, prev, prev_term, 0),
    {
        AppendEntries {
            term: self.hard_state.current_term.0,
            leader_id: self.config.node_id.0,
            prev_log_index: prev.0,
            prev_log_term: prev_term.0,
            leader_commit: self.soft_state.commit_index.0,
            entry_count: 0,
            _pad: self.read_probe_seq,
        }
    }

    /// A request without entries for `peer`, if this node leads. A peer whose
    /// backlog cannot be read gets none.
    pub fn build_heartbeat_wire<S: RaftStorage>(
        &mut self,
        storage: &S,
        peer: PeerId,
        now_ms: u64,
    ) -> (r: Result<Option<AppendEntries>, RaftError>)
        ensures
            !old(self)@.leads() ==> r == Ok::<Option<AppendEntries>, RaftError>(None)
                && final(self)@ == old(self)@,
            old(self)@.leads() ==> heartbeat_built(
                old(self)@.with_progress_started(now_ms),
                storage.model(),
                peer,
                r,
                final(self)@,
            ),
            r matches Err(e) ==> S::fails_with(e) || is_unsendable(
                old(self)@.with_progress_started(now_ms),
                storage.model(),
                peer,
                e,
            ),
    {
        if !self.is_leader() {
            return Ok(None);
        }
        self.ensure_leader_progress_initialized(now_ms);
        let (prev, term, next): (LogIndex, Term, LogIndex) = match self.append_prev_for_peer(
            storage,
            peer,
        ) {
            Err(e) => {
                return Err(e);
            },
            Ok(found) => found,
        };
        let mut backlog: Vec<LogEntry<'_>> = Vec::new();
        let mut buf: Vec<u8> = Vec::new();
        match storage.read_entries(next, LogIndex(u64::MAX), &mut backlog, &mut buf) {
            Err(e) => Err(e),
            Ok(()) => Ok(Some(self.heartbeat_request(prev, term))),
        }
    }

    /// Begins a round of heartbeats: everyone it goes to.
    pub fn start_heartbeats(&mut self, now_ms: u64) -> (r: Result<Vec<PeerId>, RaftError>)
        ensures
            !old(self)@.leads() ==> (r matches Err(e) && old(self)@.is_not_leader_error(e))
                && final(self)@ == old(self)@,
            old(self)@.leads() ==> (r matches Ok(targets) && targets@ == old(
                self,
            )@.replication_targets()) && final(self)@ == old(self)@.with_progress_started(now_ms),
    {
        if !self.is_leader() {
            return Err(self.not_leader_error());
        }
        self.ensure_leader_progress_initialized(now_ms);
        Ok(self.replication_targets())
    }

    /// What `peer` gets in this round. At most one peer per round is escalated
    /// to a snapshot. A peer whose heartbeat cannot be built is skipped, and
    /// the round goes on.
    pub fn heartbeat_step<S: RaftStorage>(
        &mut self,
        storage: &S,
        peer: PeerId,
        escalated: bool,
        now_ms: u64,
    ) -> (r: HeartbeatStep)
        ensures
            heartbeat_outcome::<S>(
                old(self)@,
                storage.model(),
                peer,
                escalated,
                now_ms,
                r,
                final(self)@,
            ),
    {
        let next: Option<LogIndex> = match self.peer_progress.get(peer) {
            Some(p) => Some(p.next_index),
            None => None,
        };
        match next {
            Some(n) => {
                if n.0 <= self.cached_last_log.0.0 {
                    let compacted: bool = match storage.term_at(n) {
                        Ok(None) => true,
                        _ => false,
                    };
                    return if !compacted {
                        HeartbeatStep::Repair
                    } else if escalated {
                        HeartbeatStep::Skip
                    } else {
                        HeartbeatStep::Escalate
                    };
                }
            },
            None => {},
        }
        match self.build_heartbeat_wire(storage, peer, now_ms) {
            Ok(Some(req)) => HeartbeatStep::Bare(req),
            Ok(None) => HeartbeatStep::Skip,
            Err(_) => HeartbeatStep::Skip,
        }
    }
}

/// Whether the round's one escalation is used up after an attempt. Only an
/// install that was not tried leaves it to another peer.
pub fn after_escalation(outcome: SnapshotEscalation) -> (r: bool)
    ensures
        r == !(outcome is Refused),
{
    !matches!(outcome, SnapshotEscalation::Refused)
}

/// How an install attempt counts in a round: it went through, it was not called
/// for, or it failed.
pub fn classify_escalation(attempt: &Result<bool, RaftError>) -> (r: SnapshotEscalation)
    ensures
        match attempt {
            Ok(true) => r is Streamed,
            Ok(false) => r is Refused,
            Err(_) => r is Failed,
        },
{
    match attempt {
        Ok(streamed) => {
            if *streamed {
                SnapshotEscalation::Streamed
            } else {
                SnapshotEscalation::Refused
            }
        },
        Err(_) => SnapshotEscalation::Failed,
    }
}

} // verus!
