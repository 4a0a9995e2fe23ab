//! Linearizable reads.
//!
//! A leader serves a read at its commit index once an entry of its own term is
//! committed and a majority has acknowledged a probe that was sent after the
//! read began. Acks that were already under way carry an older token and count
//! for nothing.

use vstd::prelude::*;

use super::progress::deadline;
use super::quorum::{contains, law_majorities_are_more_than_half, more_than_half};
use super::raft_node::{NodeModel, RaftNode};
use crate::error::RaftError;
use crate::protocol::codec::le::{field, le_bytes, lemma_le_fields, u32_at};
use crate::protocol::codec::wire::AppendEntriesResp;
use crate::protocol::message::{InboundRaftMessage, RaftMessage};
use crate::state::Role;
use crate::traits::{may_fail, RaftStorage, StorageModel};
use crate::types::{LogIndex, PeerId, Term};

verus! {

/// A round of probes that confirms a leader's majority.
pub struct Confirmation {
    /// The term that is being confirmed.
    pub term: Term,
    /// The token of this round.
    pub probe: u32,
    /// The voters that answered with it; the leader itself comes first.
    pub acks: Vec<PeerId>,
    /// When the round is given up, in milliseconds.
    pub deadline_ms: u64,
    /// When the next heartbeats are due, in milliseconds.
    pub next_probe_ms: u64,
}

/// What a confirmation does next.
#[derive(Clone, Copy, Debug, PartialEq, Eq, Structural)]
pub enum ConfirmStep {
    /// The majority is confirmed.
    Confirmed,
    /// Send a round of heartbeats.
    Heartbeat,
    /// Wait for answers.
    Wait,
}

/// How a read begins.
pub enum ReadStart {
    /// No entry of the current term is known to be committed: commit a no-op
    /// first. Its commit confirms the majority too.
    ProposeNoop,
    /// Serve the read at this index once the majority is confirmed.
    Confirm(LogIndex),
}

/// The token after `seq`: never 0, which means no probe.
pub open spec fn next_probe(seq: u32) -> u32 {
    if seq == u32::MAX {
        1
    } else {
        (seq + 1) as u32
    }
}

/// The token that a response echoes.
pub open spec fn echoed(resp: AppendEntriesResp) -> nat {
    field(resp._pad@, 0, 4)
}

/// Whether a response confirms the term in this round: it is at that term,
/// echoes the token, and comes from a voter that has not answered yet.
pub open spec fn confirms(
    m: NodeModel,
    term: Term,
    probe: u32,
    acks: Seq<PeerId>,
    from: PeerId,
    resp: AppendEntriesResp,
) -> bool {
    &&& resp.term == term.0
    &&& echoed(resp) == probe
    &&& m.peers.contains(from)
    &&& !acks.contains(from)
}

/// The token that a response echoes.
fn echoed_probe(resp: &AppendEntriesResp) -> (r: u32)
    ensures
        r as nat == echoed(*resp),
{
    u32_at(&resp._pad, 0)
}

/// How the beginning of a read came out.
pub open spec fn read_begun<S: RaftStorage>(
    before: NodeModel,
    stored: StorageModel,
    now_ms: u64,
    r: Result<ReadStart, RaftError>,
    after: NodeModel,
) -> bool {
    if !before.leads() {
        (r matches Err(e) && before.is_not_leader_error(e)) && after == before
    } else if before.transferring(now_ms) {
        (r matches Err(RaftError::NotLeader { leader_hint }) && leader_hint == Some(
            crate::types::LeaderHint { leader_id: before.transfer->0.target },
        )) && after == before
    } else {
        let m = before.window_checked(now_ms);
        let commit = m.soft.commit_index;
        &&& r is Ok
        &&& commit.0 == 0 ==> r->Ok_0 is ProposeNoop && after == m
        &&& commit.0 > 0 ==> match m.known_term_at(commit.0) {
            Some(t) => after == m && if t == m.hard.current_term {
                r->Ok_0 == ReadStart::Confirm(commit)
            } else {
                r->Ok_0 is ProposeNoop
            },
            None => match r->Ok_0 {
                ReadStart::Confirm(index) => {
                    &&& index == commit
                    &&& stored.term_of(commit.0 as int) == Some(m.hard.current_term)
                    &&& after == m.remembering(commit.0, m.hard.current_term)
                },
                ReadStart::ProposeNoop => (after == m && (may_fail::<S>() || stored.term_of(
                    commit.0 as int,
                ) is None)) || {
                    &&& stored.log.dom().contains(commit.0 as int)
                    &&& stored.log[commit.0 as int].term != m.hard.current_term
                    &&& after == m.remembering(commit.0, stored.log[commit.0 as int].term)
                },
            },
        }
    }
}

/// How the beginning of a confirmation round came out.
pub open spec fn confirmation_begun(
    before: NodeModel,
    now_ms: u64,
    r: Option<Confirmation>,
    after: NodeModel,
) -> bool {
    &&& after == (NodeModel { probe: next_probe(before.probe), ..before })
    &&& if before.majority(seq![before.node_id]) {
        r is None
    } else {
        &&& r matches Some(c)
        &&& c.term == before.hard.current_term
        &&& c.probe == next_probe(before.probe)
        &&& c.acks@ == seq![before.node_id]
        &&& c.deadline_ms == deadline(now_ms, before.election_timeout())
        &&& c.next_probe_ms == now_ms
    }
}

/// How one step of a confirmation came out.
pub open spec fn confirmation_outcome(
    m: NodeModel,
    before: Confirmation,
    now_ms: u64,
    r: Result<ConfirmStep, RaftError>,
    after: Confirmation,
) -> bool {
    &&& after.term == before.term
    &&& after.probe == before.probe
    &&& after.acks@ == before.acks@
    &&& after.deadline_ms == before.deadline_ms
    &&& if !m.leads() || m.hard.current_term != before.term {
        (r matches Err(e) && m.is_not_leader_error(e)) && after.next_probe_ms
            == before.next_probe_ms
    } else if m.majority(before.acks@) {
        r == Ok::<ConfirmStep, RaftError>(ConfirmStep::Confirmed) && after.next_probe_ms
            == before.next_probe_ms
    } else if now_ms >= before.deadline_ms {
        r == Err::<ConfirmStep, RaftError>(RaftError::NoQuorum) && after.next_probe_ms
            == before.next_probe_ms
    } else if now_ms >= before.next_probe_ms {
        r == Ok::<ConfirmStep, RaftError>(ConfirmStep::Heartbeat) && after.next_probe_ms
            == deadline(now_ms, m.heartbeat_interval())
    } else {
        r == Ok::<ConfirmStep, RaftError>(ConfirmStep::Wait) && after.next_probe_ms
            == before.next_probe_ms
    }
}

/// What a frame that arrives during a confirmation does to it.
pub open spec fn confirmation_noted(
    m: NodeModel,
    before: Confirmation,
    inbound: InboundRaftMessage<'_>,
    after: Confirmation,
) -> bool {
    &&& after.term == before.term
    &&& after.probe == before.probe
    &&& after.deadline_ms == before.deadline_ms
    &&& after.next_probe_ms == before.next_probe_ms
    &&& after.acks@ == match inbound.message {
        RaftMessage::AppendEntriesResp(resp) => if confirms(
            m,
            before.term,
            before.probe,
            before.acks@,
            inbound.from,
            resp,
        ) {
            before.acks@.push(inbound.from)
        } else {
            before.acks@
        },
        _ => before.acks@,
    }
}

impl RaftNode {
    /// Begins a read. Reads are refused like proposals while a transfer awaits
    /// its outcome.
    pub fn start_read<S: RaftStorage>(&mut self, storage: &S, now_ms: u64) -> (r: Result<
        ReadStart,
        RaftError,
    >)
        ensures
            read_begun::<S>(old(self)@, storage.model(), now_ms, r, final(self)@),
    {
        if !self.is_leader() {
            return Err(self.not_leader_error());
        }
        match self.check_transfer_freeze(now_ms) {
            Err(e) => {
                return Err(e);
            },
            Ok(()) => {},
        }
        let commit = self.soft_state.commit_index;
        if commit.0 == 0 {
            return Ok(ReadStart::ProposeNoop);
        }
        match self.term_at(storage, commit) {
            Ok(t) => {
                if t == self.hard_state.current_term {
                    Ok(ReadStart::Confirm(commit))
                } else {
                    Ok(ReadStart::ProposeNoop)
                }
            },
            Err(_) => Ok(ReadStart::ProposeNoop),
        }
    }

    /// Begins a confirmation round with a fresh token. `None` means that this
    /// node is a majority by itself.
    pub fn start_confirmation(&mut self, now_ms: u64) -> (r: Option<Confirmation>)
        ensures
            confirmation_begun(old(self)@, now_ms, r, final(self)@),
    {
        self.read_probe_seq = self.read_probe_seq.wrapping_add(1);
        if self.read_probe_seq == 0 {
            self.read_probe_seq = 1;
        }
        let mut acks: Vec<PeerId> = Vec::new();
        acks.push(self.config.node_id);
        assert(acks@ =~= seq![old(self)@.node_id]);
        if self.voter_majority(&acks) {
            return None;
        }
        Some(
            Confirmation {
                term: self.hard_state.current_term,
                probe: self.read_probe_seq,
                acks,
                deadline_ms: now_ms.saturating_add(self.election_timeout()),
                next_probe_ms: now_ms,
            },
        )
    }

    /// The next step of a confirmation. A node that no longer leads the term
    /// refuses the read, and so does one that runs out of time.
    pub fn confirmation_step(&self, c: &mut Confirmation, now_ms: u64) -> (r: Result<
        ConfirmStep,
        RaftError,
    >)
        ensures
            confirmation_outcome(self@, *old(c), now_ms, r, *final(c)),
    {
        if !self.is_leader() || self.hard_state.current_term != c.term {
            return Err(self.not_leader_error());
        }
        if self.voter_majority(&c.acks) {
            return Ok(ConfirmStep::Confirmed);
        }
        if now_ms >= c.deadline_ms {
            return Err(RaftError::NoQuorum);
        }
        if now_ms >= c.next_probe_ms {
            c.next_probe_ms = now_ms.saturating_add(self.heartbeat_interval());
            return Ok(ConfirmStep::Heartbeat);
        }
        Ok(ConfirmStep::Wait)
    }

    /// Counts a frame that arrived during a confirmation.
    pub fn note_confirmation(&self, c: &mut Confirmation, inbound: &InboundRaftMessage<'_>)
        ensures
            confirmation_noted(self@, *old(c), *inbound, *final(c)),
    {
        match inbound.message {
            RaftMessage::AppendEntriesResp(resp) => {
                if resp.term == c.term.0 && echoed_probe(&resp) == c.probe && contains(
                    &self.config.peers,
                    inbound.from,
                ) && !contains(&c.acks, inbound.from) {
                    c.acks.push(inbound.from);
                }
            },
            _ => {},
        }
    }
}

/// The token of a round is never 0, and a response that echoes any other token
/// confirms nothing.
pub proof fn law_only_fresh_acks_confirm(
    m: NodeModel,
    term: Term,
    seq: u32,
    acks: Seq<PeerId>,
    from: PeerId,
    resp: AppendEntriesResp,
)
    ensures
        next_probe(seq) != 0,
        next_probe(seq) != seq,
        echoed(resp) == seq ==> !confirms(m, term, next_probe(seq), acks, from, resp),
        echoed(resp) == 0 ==> !confirms(m, term, next_probe(seq), acks, from, resp),
{
}

/// A follower's answer echoes the token of the request that it answers.
pub proof fn law_followers_echo(resp: AppendEntriesResp, echo: u32)
    requires
        resp._pad@ == le_bytes(echo as nat, 4) + seq![0u8, 0, 0],
    ensures
        echoed(resp) == echo,
{
    lemma_le_fields();
    assert(resp._pad@.subrange(0, 4) =~= le_bytes(echo as nat, 4));
}

/// A read is served at the commit index, by a leader that does not hand leadership over,
/// once an entry of its own term is committed: the entry there is of that term, as far
/// as the leader knows its log. Otherwise it is to commit one first.
pub proof fn law_reads_wait_for_the_leaders_own_term<S: RaftStorage>(
    before: NodeModel,
    stored: StorageModel,
    now_ms: u64,
    r: Result<ReadStart, RaftError>,
    after: NodeModel,
)
    requires
        read_begun::<S>(before, stored, now_ms, r, after),
    ensures
        ({
            let commit = before.soft.commit_index.0;
            let run = before.arena;
            let remembered = run.base <= commit < run.base + run.terms.len();
            let term = if commit == before.last_log.0.0 {
                Some(before.last_log.1)
            } else if remembered {
                Some(run.terms[commit - run.base])
            } else if commit == before.boundary.0.0 {
                Some(before.boundary.1)
            } else if stored.log.dom().contains(commit as int) {
                Some(stored.log[commit as int].term)
            } else {
                None
            };
            let serves = before.soft.role == Role::Leader && !(before.transfer is Some && now_ms
                < before.transfer->0.deadline_ms);
            &&& r is Ok <==> serves
            &&& r matches Ok(ReadStart::Confirm(index)) ==> index.0 == commit && commit > 0 && term
                == Some(before.hard.current_term)
            &&& serves && commit > 0 && term == Some(before.hard.current_term) && (
            !may_fail::<S>() || commit == before.last_log.0.0 || remembered || commit
                == before.boundary.0.0) ==> r->Ok_0 == ReadStart::Confirm(LogIndex(commit))
            &&& after.soft == before.soft && after.hard == before.hard
        }),
{
}

/// A round confirms a leader exactly where more than half of the voters, of both sets
/// while a transition is under way, have acknowledged it and it still leads the term;
/// out of time it reports that there was no quorum.
pub proof fn law_confirmations_take_a_majority(
    m: NodeModel,
    before: Confirmation,
    now_ms: u64,
    r: Result<ConfirmStep, RaftError>,
    after: Confirmation,
)
    requires
        confirmation_outcome(m, before, now_ms, r, after),
    ensures
        ({
            let acked = |p: PeerId| before.acks@.contains(p);
            let suffices = match m.joint {
                Some((old_peers, new_peers)) => more_than_half(old_peers, acked) && more_than_half(
                    new_peers,
                    acked,
                ),
                None => more_than_half(m.peers, acked),
            };
            let leads = m.soft.role == Role::Leader && m.hard.current_term == before.term;
            &&& r == Ok::<ConfirmStep, RaftError>(ConfirmStep::Confirmed) <==> leads && suffices
            &&& r is Err <==> !leads || (!suffices && now_ms >= before.deadline_ms)
            &&& r == Ok::<ConfirmStep, RaftError>(ConfirmStep::Heartbeat) <==> leads && !suffices
                && now_ms < before.deadline_ms && now_ms >= before.next_probe_ms
            &&& after.acks@ == before.acks@
            &&& after.term == before.term && after.probe == before.probe
        }),
{
    law_majorities_are_more_than_half(m.peers, m.joint, before.acks@);
}

/// A round begins with a token that no earlier answer can carry and with the leader's own
/// ack. From then on an ack counts only where a voter answers an append request of this
/// term with this token, each voter once.
pub proof fn law_rounds_count_answers_to_their_own_token(
    m: NodeModel,
    now_ms: u64,
    begun: Confirmation,
    next: NodeModel,
    before: Confirmation,
    inbound: InboundRaftMessage<'_>,
    after: Confirmation,
    p: PeerId,
)
    requires
        confirmation_begun(m, now_ms, Some(begun), next),
        confirmation_noted(m, before, inbound, after),
    ensures
        begun.probe != 0,
        begun.probe != m.probe,
        next.probe == begun.probe,
        begun.term == m.hard.current_term,
        begun.acks@.contains(p) <==> p == m.node_id,
        begun.deadline_ms >= now_ms,
        before.acks@.contains(p) ==> after.acks@.contains(p),
        after.acks@.contains(p) && !before.acks@.contains(p) ==> {
            &&& inbound.from == p
            &&& m.peers.contains(p)
            &&& inbound.message matches RaftMessage::AppendEntriesResp(resp)
            &&& resp.term == before.term.0
            &&& field(resp._pad@, 0, 4) == before.probe
        },
        inbound.message matches RaftMessage::AppendEntriesResp(resp) ==> (m.peers.contains(
            inbound.from,
        ) && resp.term == before.term.0 && field(resp._pad@, 0, 4) == before.probe
            ==> after.acks@.contains(inbound.from)),
        after.term == before.term,
        after.probe == before.probe,
{
    assert(begun.acks@[0] == m.node_id);
    let was = before.acks@;
    let is = after.acks@;
    if was.contains(p) {
        let i = choose|i: int| 0 <= i < was.len() && was[i] == p;
        assert(is[i] == p);
    }
    if is.contains(p) && !was.contains(p) {
        let i = choose|i: int| 0 <= i < is.len() && is[i] == p;
        if i < was.len() {
            assert(was[i] == p);
        }
    }
    match inbound.message {
        RaftMessage::AppendEntriesResp(resp) => {
            if confirms(m, before.term, before.probe, was, inbound.from, resp) {
                assert(is[was.len() as int] == inbound.from);
            }
        },
        _ => {},
    }
}

} // verus!
