//! Leadership transfer.
//!
//! The leader first brings the target up to its own tip, then sanctions an
//! immediate election there and stops taking client work until the target's
//! newer term arrives or the window closes.

use vstd::prelude::*;

use super::progress::PeerProgress;
use super::quorum::contains;
use super::raft_node::{saved, step_down_outcome, NodeModel, PendingTransfer, RaftNode};
use crate::error::RaftError;
use crate::node::progress::deadline;
use crate::protocol::codec::wire::TimeoutNow;
use crate::state::Role;
use crate::text::text;
use crate::traits::RaftStorage;
use crate::types::{LeaderHint, LogIndex, PeerId, Term};

verus! {

/// A transfer while its target catches up.
#[derive(Clone, Copy, Debug)]
pub struct TransferAttempt {
    pub target: PeerId,
    /// The term in which the transfer began.
    pub term: Term,
    /// When the attempt is given up, in milliseconds.
    pub deadline_ms: u64,
    /// When the next round of heartbeats is due, in milliseconds.
    pub next_probe_ms: u64,
    /// The target's next entry when it was last sent something.
    pub last_probed_next: LogIndex,
}

/// What a transfer does next.
#[derive(Clone, Copy, Debug)]
pub enum TransferStep {
    /// Send a round of heartbeats, which carries the target's backlog.
    Heartbeat,
    /// Send the target its next batch at once: its window has moved.
    SendTarget,
    /// Wait for answers.
    Wait,
    /// The target has everything: send it this.
    Sanction(TimeoutNow),
}

/// How the beginning of a transfer came out.
#[derive(Clone, Copy, Debug)]
pub enum TransferStart {
    /// This node is the target and already leads.
    AlreadyLeading,
    /// The target must catch up.
    CatchUp(TransferAttempt),
}

/// The text of the error for a sanction that could not be sent.
pub open spec fn sanction_refused() -> Seq<char> {
    "leadership transfer: failed to send TimeoutNow to target"@
}

impl NodeModel {
    /// The next entry to send to `peer`, or 0 where there is no progress.
    pub open spec fn next_for(self, peer: PeerId) -> LogIndex {
        if self.progress.dom().contains(peer) {
            self.progress[peer].next_index
        } else {
            LogIndex(0)
        }
    }

    /// Whether `peer` has the leader's whole log.
    pub open spec fn caught_up(self, peer: PeerId) -> bool {
        self.progress.dom().contains(peer) && self.progress[peer].match_index.0
            >= self.last_log.0.0
    }

    /// Whether a transfer's window is open at `now_ms`.
    pub open spec fn transferring(self, now_ms: u64) -> bool {
        self.transfer matches Some(t) && now_ms < t.deadline_ms
    }

    /// The node with a transfer window that has closed taken away.
    pub open spec fn window_checked(self, now_ms: u64) -> NodeModel {
        if self.transferring(now_ms) {
            self
        } else {
            NodeModel { transfer: None, ..self }
        }
    }

    /// How long between two heartbeats, in milliseconds; at least 1.
    pub open spec fn heartbeat_interval(self) -> u64 {
        if self.timing.heartbeat_ms == 0 {
            1
        } else {
            self.timing.heartbeat_ms
        }
    }

    /// Whether a sanction from `from` is obeyed, once the node has caught up
    /// with its term: the node does not lead, it votes, and the sender is the
    /// leader it follows, if it follows one.
    pub open spec fn obeys_sanction(self, from: PeerId) -> bool {
        &&& !self.leads()
        &&& self.votes()
        &&& self.soft.leader_id matches Some(leader) ==> leader == from
    }

    /// The node after a sanction at `term` from `from`.
    pub open spec fn sanctioned(self, from: PeerId, term: u64) -> NodeModel {
        if term < self.hard.current_term.0 {
            self
        } else {
            let m = self.caught_up_with(term);
            if m.obeys_sanction(from) {
                NodeModel { forced: Some(m.hard.current_term), ..m }
            } else {
                m
            }
        }
    }
}

/// How the beginning of a transfer to `target` came out.
pub open spec fn transfer_begun(
    before: NodeModel,
    target: PeerId,
    now_ms: u64,
    r: Result<TransferStart, RaftError>,
    after: NodeModel,
) -> bool {
    if !before.leads() {
        (r matches Err(e) && before.is_not_leader_error(e)) && after == before
    } else if target == before.node_id {
        (r matches Ok(TransferStart::AlreadyLeading)) && after == before
    } else if !before.peers.contains(target) {
        (r matches Err(RaftError::PeerUnknown(p)) && p == target) && after == before
    } else {
        &&& after == if before.progress == Map::<PeerId, PeerProgress>::empty() {
            before.with_leader_progress(now_ms)
        } else {
            before
        }
        &&& r matches Ok(TransferStart::CatchUp(a)) && a == (TransferAttempt {
            target,
            term: before.hard.current_term,
            deadline_ms: deadline(now_ms, before.election_timeout()),
            next_probe_ms: now_ms,
            last_probed_next: LogIndex(u64::MAX),
        })
    }
}

/// How the end of a transfer came out, where `sent` says that the sanction went out.
pub open spec fn transfer_finished(
    before: NodeModel,
    target: PeerId,
    sent: bool,
    now_ms: u64,
    r: Result<(), RaftError>,
    after: NodeModel,
) -> bool {
    if sent {
        r is Ok && after == (NodeModel {
            transfer: Some(
                PendingTransfer {
                    target,
                    deadline_ms: deadline(now_ms, before.election_timeout()),
                },
            ),
            ..before
        })
    } else {
        (r matches Err(RaftError::Transport(m)) && m@ == sanction_refused()) && after == before
    }
}

/// How client work fares with a transfer that may await its outcome.
pub open spec fn freeze_outcome(
    before: NodeModel,
    now_ms: u64,
    r: Result<(), RaftError>,
    after: NodeModel,
) -> bool {
    &&& after == before.window_checked(now_ms)
    &&& if before.transferring(now_ms) {
        r matches Err(RaftError::NotLeader { leader_hint }) && leader_hint == Some(
            LeaderHint { leader_id: before.transfer->0.target },
        )
    } else {
        r is Ok
    }
}

/// How one step of a transfer came out.
pub open spec fn transfer_outcome(
    m: NodeModel,
    a: TransferAttempt,
    now_ms: u64,
    r: Result<TransferStep, RaftError>,
    b: TransferAttempt,
) -> bool {
    let next = m.next_for(a.target);
    if !m.leads() || m.hard.current_term != a.term {
        (r matches Err(e) && m.is_not_leader_error(e)) && b == a
    } else if m.caught_up(a.target) {
        (r matches Ok(TransferStep::Sanction(msg)) && msg == (TimeoutNow {
            term: a.term.0,
            leader_id: m.node_id.0,
        })) && b == a
    } else if now_ms >= a.deadline_ms {
        (r matches Err(RaftError::TransferTimeout(p)) && p == a.target) && b == a
    } else if now_ms >= a.next_probe_ms {
        r matches Ok(TransferStep::Heartbeat) && b == (TransferAttempt {
            next_probe_ms: deadline(now_ms, m.heartbeat_interval()),
            ..a
        })
    } else if next != a.last_probed_next {
        r matches Ok(TransferStep::SendTarget) && b == (TransferAttempt {
            last_probed_next: next,
            ..a
        })
    } else {
        r matches Ok(TransferStep::Wait) && b == a
    }
}

impl RaftNode {
    /// The time between two heartbeats, in milliseconds.
    pub fn heartbeat_interval(&self) -> (r: u64)
        ensures
            r == self@.heartbeat_interval(),
    {
        if self.config.timing.heartbeat_ms == 0 {
            1
        } else {
            self.config.timing.heartbeat_ms
        }
    }

    /// Begins a transfer to `target`.
    pub fn start_transfer(&mut self, target: PeerId, now_ms: u64) -> (r: Result<
        TransferStart,
        RaftError,
    >)
        ensures
            transfer_begun(old(self)@, target, now_ms, r, final(self)@),
    {
        if !self.is_leader() {
            return Err(self.not_leader_error());
        }
        if target == self.config.node_id {
            return Ok(TransferStart::AlreadyLeading);
        }
        if !contains(&self.config.peers, target) {
            return Err(RaftError::PeerUnknown(target));
        }
        self.ensure_leader_progress_initialized(now_ms);
        Ok(
            TransferStart::CatchUp(
                TransferAttempt {
                    target,
                    term: self.hard_state.current_term,
                    deadline_ms: now_ms.saturating_add(self.election_timeout()),
                    next_probe_ms: now_ms,
                    last_probed_next: LogIndex(u64::MAX),
                },
            ),
        )
    }

    fn next_index_for(&self, peer: PeerId) -> (r: LogIndex)
        ensures
            r == self@.next_for(peer),
    {
        match self.peer_progress.get(peer) {
            Some(p) => p.next_index,
            None => LogIndex(0),
        }
    }

    /// The next step of a transfer. Deposed, the leader gives the transfer up;
    /// out of time, it resumes as if nothing had happened. A heartbeat round is
    /// followed by [`RaftNode::note_probe`].
    pub fn transfer_step(&self, attempt: &mut TransferAttempt, now_ms: u64) -> (r: Result<
        TransferStep,
        RaftError,
    >)
        ensures
            transfer_outcome(self@, *old(attempt), now_ms, r, *final(attempt)),
    {
        if !self.is_leader() || self.hard_state.current_term != attempt.term {
            return Err(self.not_leader_error());
        }
        let last: u64 = self.cached_last_log.0.0;
        let done: bool = match self.peer_progress.get(attempt.target) {
            Some(p) => p.match_index.0 >= last,
            None => false,
        };
        if done {
            return Ok(
                TransferStep::Sanction(
                    TimeoutNow { term: attempt.term.0, leader_id: self.config.node_id.0 },
                ),
            );
        }
        if now_ms >= attempt.deadline_ms {
            return Err(RaftError::TransferTimeout(attempt.target));
        }
        let next = self.next_index_for(attempt.target);
        if now_ms >= attempt.next_probe_ms {
            attempt.next_probe_ms = now_ms.saturating_add(self.heartbeat_interval());
            return Ok(TransferStep::Heartbeat);
        }
        if next != attempt.last_probed_next {
            attempt.last_probed_next = next;
            return Ok(TransferStep::SendTarget);
        }
        Ok(TransferStep::Wait)
    }

    /// Remembers where the target stands once a heartbeat round has been sent:
    /// what the round's answers have moved already was probed by the round.
    pub fn note_probe(&self, attempt: &mut TransferAttempt)
        ensures
            *final(attempt) == (TransferAttempt {
                last_probed_next: self@.next_for(old(attempt).target),
                ..*old(attempt)
            }),
    {
        attempt.last_probed_next = self.next_index_for(attempt.target);
    }

    /// Ends a transfer once the sanction was handed to the transport: client
    /// work is refused for one more election timeout. A frame that the
    /// transport refused sanctions nothing.
    pub fn finish_transfer(&mut self, target: PeerId, sent: bool, now_ms: u64) -> (r: Result<
        (),
        RaftError,
    >)
        ensures
            transfer_finished(old(self)@, target, sent, now_ms, r, final(self)@),
    {
        if !sent {
            return Err(
                RaftError::Transport(
                    text("leadership transfer: failed to send TimeoutNow to target"),
                ),
            );
        }
        self.pending_transfer = Some(
            PendingTransfer {
                target,
                deadline_ms: now_ms.saturating_add(self.election_timeout()),
            },
        );
        Ok(())
    }

    /// Refuses client work while a transfer awaits its outcome, with a hint at
    /// the incoming leader.
    pub fn check_transfer_freeze(&mut self, now_ms: u64) -> (r: Result<(), RaftError>)
        ensures
            freeze_outcome(old(self)@, now_ms, r, final(self)@),
    {
        if self.leadership_transfer_in_progress(now_ms) {
            return Err(
                RaftError::NotLeader {
                    leader_hint: match self.pending_transfer {
                        Some(t) => Some(LeaderHint { leader_id: t.target }),
                        None => None,
                    },
                },
            );
        }
        Ok(())
    }

    /// Whether a transfer awaits its outcome. A window that has closed is taken
    /// away: the target never campaigned, and the leader resumes.
    pub fn leadership_transfer_in_progress(&mut self, now_ms: u64) -> (r: bool)
        ensures
            r == old(self)@.transferring(now_ms),
            final(self)@ == old(self)@.window_checked(now_ms),
    {
        match self.pending_transfer {
            Some(t) => {
                if now_ms < t.deadline_ms {
                    true
                } else {
                    self.pending_transfer = None;
                    false
                }
            },
            None => false,
        }
    }

    /// Takes in a sanction to campaign at once.
    pub fn handle_timeout_now<S: RaftStorage>(
        &mut self,
        storage: &mut S,
        from: PeerId,
        msg: &TimeoutNow,
    ) -> (r: Result<(), RaftError>)
        ensures
            match r {
                Ok(()) => {
                    &&& final(self)@ == old(self)@.sanctioned(from, msg.term)
                    &&& final(storage).model() == if msg.term > old(self)@.hard.current_term.0 {
                        saved(old(storage).model(), final(self)@.hard)
                    } else {
                        old(storage).model()
                    }
                },
                Err(e) => {
                    &&& S::fails_with(e)
                    &&& msg.term > old(self)@.hard.current_term.0
                    &&& step_down_outcome(
                        old(self)@,
                        old(storage).model(),
                        Term(msg.term),
                        Err(e),
                        final(self)@,
                        final(storage).model(),
                    )
                },
            },
    {
        if msg.term < self.hard_state.current_term.0 {
            return Ok(());
        }
        if msg.term > self.hard_state.current_term.0 {
            match self.step_down(storage, Term(msg.term)) {
                Err(e) => {
                    return Err(e);
                },
                Ok(()) => {},
            }
        }
        if self.is_leader() {
            return Ok(());
        }
        if !contains(&self.config.peers, self.config.node_id) {
            return Ok(());
        }
        match self.soft_state.leader_id {
            Some(leader) => {
                if leader != from {
                    return Ok(());
                }
            },
            None => {},
        }
        self.forced_campaign_term = Some(self.hard_state.current_term);
        Ok(())
    }

    /// Takes the sanction, if there is one, and says whether it is still good:
    /// the term has not moved on, and the node neither leads nor left the
    /// voters.
    pub fn take_forced_campaign(&mut self) -> (r: bool)
        ensures
            final(self)@ == (NodeModel { forced: None, ..old(self)@ }),
            r == (old(self)@.forced == Some(old(self)@.hard.current_term) && !old(self)@.leads()
                && old(self)@.votes()),
    {
        match self.forced_campaign_term {
            Some(t) => {
                self.forced_campaign_term = None;
                t == self.hard_state.current_term && !self.is_leader() && contains(
                    &self.config.peers,
                    self.config.node_id,
                )
            },
            None => false,
        }
    }
}

/// A sanction is used at most once, a sanction of another term never, and a
/// step-down ends every transfer window.
pub proof fn law_sanctions_expire(m: NodeModel, from: PeerId, term: u64, newer: Term)
    ensures
        m.sanctioned(from, term).forced matches Some(t) ==> t == m.sanctioned(
            from,
            term,
        ).hard.current_term || m.forced == Some(t),
        m.stepped_down(newer).transfer is None,
        term < m.hard.current_term.0 ==> m.sanctioned(from, term) == m,
{
}

/// An election is sanctioned only once the target is known to have the leader's whole
/// log, up to its last entry, and whenever it is; until then the target is sent what it
/// lacks, until the deadline. The sanction carries the leader's name and term.
pub proof fn law_targets_catch_up_first(
    m: NodeModel,
    a: TransferAttempt,
    now_ms: u64,
    r: Result<TransferStep, RaftError>,
    b: TransferAttempt,
)
    requires
        transfer_outcome(m, a, now_ms, r, b),
        m.soft.role == Role::Leader,
        m.hard.current_term == a.term,
    ensures
        ({
            let has_all = m.progress.dom().contains(a.target) && m.progress[a.target].match_index.0
                >= m.last_log.0.0;
            &&& (r is Ok && r->Ok_0 is Sanction) <==> has_all
            &&& r matches Ok(TransferStep::Sanction(msg)) ==> msg.term == m.hard.current_term.0
                && msg.leader_id == m.node_id.0
            &&& r is Err <==> !has_all && now_ms >= a.deadline_ms
            &&& r matches Err(e) ==> e == RaftError::TransferTimeout(a.target)
            &&& !has_all && now_ms < a.deadline_ms ==> {
                &&& (r->Ok_0 is Heartbeat <==> now_ms >= a.next_probe_ms)
                &&& (r->Ok_0 is Wait ==> b == a)
                &&& (r->Ok_0 is Wait && m.progress.dom().contains(a.target)
                    ==> m.progress[a.target].next_index == a.last_probed_next)
                &&& (r->Ok_0 is SendTarget && m.progress.dom().contains(a.target)
                    ==> m.progress[a.target].next_index != a.last_probed_next
                    && b.last_probed_next == m.progress[a.target].next_index)
            }
            &&& r is Ok && r->Ok_0 is Heartbeat ==> b.next_probe_ms > now_ms || now_ms == u64::MAX
            &&& b.target == a.target && b.term == a.term && b.deadline_ms == a.deadline_ms
        }),
{
}

/// A node that does not lead, or no longer the term in which the transfer began,
/// sanctions nothing and begins nothing. A leader transfers to another voter only, and
/// gives that one the longest election timeout to catch up.
pub proof fn law_only_leaders_transfer(
    before: NodeModel,
    target: PeerId,
    now_ms: u64,
    r: Result<TransferStart, RaftError>,
    after: NodeModel,
    a: TransferAttempt,
    step: Result<TransferStep, RaftError>,
    b: TransferAttempt,
)
    requires
        transfer_begun(before, target, now_ms, r, after),
        transfer_outcome(before, a, now_ms, step, b),
    ensures
        before.soft.role != Role::Leader || before.hard.current_term != a.term ==> step is Err && b
            == a,
        before.soft.role != Role::Leader ==> r is Err && after == before,
        before.soft.role == Role::Leader && target != before.node_id ==> (r is Ok
            <==> before.peers.contains(target)),
        r matches Ok(TransferStart::CatchUp(t)) ==> {
            &&& t.target == target && target != before.node_id
            &&& t.term == before.hard.current_term
            &&& t.next_probe_ms == now_ms
            &&& t.deadline_ms >= now_ms
            &&& t.deadline_ms < u64::MAX && before.timing.election_max_ms > 0 ==> t.deadline_ms
                == now_ms + before.timing.election_max_ms
            &&& after.soft == before.soft && after.hard == before.hard
        },
        (r is Ok && r->Ok_0 is AlreadyLeading) <==> before.soft.role == Role::Leader && target
            == before.node_id,
{
}

/// A sanction is obeyed where it is not behind, the node votes and does not lead, and it
/// comes from the leader that the node follows, if it follows one; it then stands for
/// the node's term. A newer term in it is adopted in any case.
pub proof fn law_sanctions_are_obeyed_by_followers(m: NodeModel, from: PeerId, term: u64)
    ensures
        ({
            let n = m.sanctioned(from, term);
            let own = m.hard.current_term.0;
            &&& n.hard.current_term.0 == if term > own {
                term
            } else {
                own
            }
            &&& term < own ==> n == m
            &&& term == own ==> (n.forced == Some(m.hard.current_term) <==> m.forced == Some(
                m.hard.current_term,
            ) || (m.soft.role != Role::Leader && m.peers.contains(m.node_id) && (
            m.soft.leader_id is None || m.soft.leader_id == Some(from))))
            &&& term > own && m.peers.contains(m.node_id) ==> n.forced == Some(Term(term))
            &&& term > own && !m.peers.contains(m.node_id) ==> n.forced == m.forced
            &&& term == own ==> n.soft == m.soft && n.hard == m.hard
        }),
{
}

/// A transfer's window is open until its deadline and takes nothing with it when it
/// closes.
pub proof fn law_windows_close(m: NodeModel, now_ms: u64)
    ensures
        m.transferring(now_ms) <==> m.transfer is Some && now_ms < m.transfer->0.deadline_ms,
        m.transfer is Some && now_ms < m.transfer->0.deadline_ms ==> m.window_checked(now_ms) == m,
        !(m.transfer is Some && now_ms < m.transfer->0.deadline_ms) ==> m.window_checked(now_ms)
            == (NodeModel { transfer: None, ..m }),
{
}

/// Once a sanction is out, client work is refused until the longest election timeout is
/// over, with a hint at the target, and no longer. A sanction that did not go out refuses
/// nothing.
pub proof fn law_clients_wait_for_the_new_leader(
    before: NodeModel,
    target: PeerId,
    sent: bool,
    now_ms: u64,
    r: Result<(), RaftError>,
    after: NodeModel,
    later_ms: u64,
    s: Result<(), RaftError>,
    end: NodeModel,
)
    requires
        transfer_finished(before, target, sent, now_ms, r, after),
        freeze_outcome(after, later_ms, s, end),
        before.timing.election_max_ms > 0,
        now_ms + before.timing.election_max_ms < u64::MAX,
    ensures
        r is Ok <==> sent,
        sent ==> {
            &&& s is Ok <==> later_ms >= now_ms + before.timing.election_max_ms
            &&& s is Err ==> s->Err_0 == (RaftError::NotLeader {
                leader_hint: Some(LeaderHint { leader_id: target }),
            })
            &&& s is Ok ==> end.transfer is None
        },
        !sent ==> after == before,
        end.hard == before.hard && end.soft == before.soft && end.progress == before.progress,
{
}

} // verus!
