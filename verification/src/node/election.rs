//! Elections and pre-votes.
//!
//! The exchange of frames belongs to the caller: this module says what to ask,
//! what each answer means, and when the votes suffice.

use vstd::prelude::*;

use super::metrics::{bumped, RaftMetricsSnapshot};
use super::quorum::{contains, law_majorities_intersect};
use super::raft_node::{saved, step_down_outcome, NodeModel, RaftNode};
use crate::error::RaftError;
use crate::protocol::codec::wire::{RequestVote, RequestVoteResp};
use crate::protocol::message::{InboundRaftMessage, RaftMessage};
use crate::state::{HardState, Role, SoftState};
use crate::traits::{refused_cleanly, RaftStorage, StorageModel};
use crate::types::{LogIndex, PeerId, Term};

verus! {

/// The votes of one campaign.
pub struct VoteTally {
    /// The term whose votes count.
    pub term: Term,
    /// Who granted a vote; the candidate itself comes first.
    pub granted: Vec<PeerId>,
    /// Who has answered.
    pub responders: Vec<PeerId>,
    /// How many could have granted a vote, the candidate included.
    pub possible: usize,
}

/// What a [`VoteTally`] stands for.
#[verifier::ext_equal]
pub struct TallyModel {
    pub term: Term,
    pub granted: Seq<PeerId>,
    pub responders: Seq<PeerId>,
    pub possible: nat,
}

impl View for VoteTally {
    type V = TallyModel;

    open spec fn view(&self) -> TallyModel {
        TallyModel {
            term: self.term,
            granted: self.granted@,
            responders: self.responders@,
            possible: self.possible as nat,
        }
    }
}

impl TallyModel {
    /// The tally after an answer from `from`: the first answer of each peer
    /// counts, and it is a vote if it grants one at the tally's term.
    pub open spec fn answered(self, from: PeerId, resp: RequestVoteResp) -> TallyModel {
        if self.responders.contains(from) {
            self
        } else {
            TallyModel {
                responders: self.responders.push(from),
                granted: if resp.term == self.term.0 && resp.vote_granted != 0 {
                    self.granted.push(from)
                } else {
                    self.granted
                },
                ..self
            }
        }
    }

    /// Whether more answers may come.
    pub open spec fn open_for_answers(self) -> bool {
        self.responders.len() < self.possible
    }
}

/// The answer in a frame that counts in a campaign, or in a pre-vote.
pub open spec fn answer_in(msg: RaftMessage<'_>, pre_vote: bool) -> Option<RequestVoteResp> {
    match msg {
        RaftMessage::RequestVoteResp(resp) => if pre_vote {
            None
        } else {
            Some(resp)
        },
        RaftMessage::PreVoteResp(resp) => if pre_vote {
            Some(resp)
        } else {
            None
        },
        _ => None,
    }
}

/// The answer in a frame that counts in a campaign, or in a pre-vote. Every other
/// frame is dealt with as usual.
pub fn campaign_answer(msg: &RaftMessage<'_>, pre_vote: bool) -> (r: Option<RequestVoteResp>)
    ensures
        r == answer_in(*msg, pre_vote),
{
    match *msg {
        RaftMessage::RequestVoteResp(resp) => if pre_vote {
            None
        } else {
            Some(resp)
        },
        RaftMessage::PreVoteResp(resp) => if pre_vote {
            Some(resp)
        } else {
            None
        },
        _ => None,
    }
}

/// What a run of frames does to a tally: the tally that it leaves, and the
/// newer term at which counting stopped, if an answer carried one.
pub open spec fn counted(
    tally: TallyModel,
    current: u64,
    frames: Seq<InboundRaftMessage<'_>>,
    pre_vote: bool,
) -> (TallyModel, Option<u64>)
    decreases frames.len(),
{
    if frames.len() == 0 {
        (tally, None)
    } else {
        let (t, stop) = counted(tally, current, frames.drop_last(), pre_vote);
        match (stop, answer_in(frames.last().message, pre_vote)) {
            (Some(term), _) => (t, Some(term)),
            (None, None) => (t, None),
            (None, Some(resp)) => if t.responders.contains(frames.last().from) {
                (t, None)
            } else if resp.term > current {
                (t.answered(frames.last().from, resp), Some(resp.term))
            } else {
                (t.answered(frames.last().from, resp), None)
            },
        }
    }
}

/// Where a campaign stands after a run of frames.
#[derive(Clone, Copy, Debug, PartialEq, Eq, Structural)]
pub enum CampaignStep {
    /// A majority granted its vote.
    Won,
    /// A newer term turned up; the node has given way to it.
    Deposed,
    /// Undecided.
    Undecided,
}

/// Where the gathering of votes stands.
#[derive(Clone, Copy, Debug, PartialEq, Eq, Structural)]
pub enum VoteStep {
    /// The votes are there.
    Won,
    /// They will not come.
    Lost,
    /// Wait for more frames, for at most so many milliseconds.
    Wait(u64),
}

impl NodeModel {
    /// Whether a campaign at `term`, or a pre-vote for it, has become pointless: the
    /// node is no longer the candidate of that term, or its own term has reached the
    /// one that the pre-vote is for.
    pub open spec fn overtaken(self, term: Term, pre_vote: bool) -> bool {
        if pre_vote {
            self.hard.current_term.0 >= term.0
        } else {
            !self.still_candidate(term)
        }
    }

    /// Whether the node is a voter in its own configuration.
    pub open spec fn votes(self) -> bool {
        self.peers.contains(self.node_id)
    }

    /// The term after the current one; the last term is its own successor.
    pub open spec fn next_term(self) -> Term {
        if self.hard.current_term.0 == u64::MAX {
            self.hard.current_term
        } else {
            Term((self.hard.current_term.0 + 1) as u64)
        }
    }

    /// The node as a candidate of the next term, with its vote for itself.
    pub open spec fn campaigning(self) -> NodeModel {
        NodeModel {
            soft: SoftState {
                role: Role::Candidate,
                is_leader: false,
                leader_id: None,
                commit_index: self.soft.commit_index,
            },
            hard: HardState { current_term: self.next_term(), voted_for: Some(self.node_id) },
            counters: RaftMetricsSnapshot {
                elections_started: bumped(self.counters.elections_started),
                ..self.counters
            },
            ..self
        }
    }

    /// The request for votes at `term`, of a node whose log ends at `tip`.
    pub open spec fn vote_request(self, tip: (LogIndex, Term), term: Term) -> RequestVote {
        RequestVote {
            term: term.0,
            candidate_id: self.node_id.0,
            last_log_index: tip.0.0,
            last_log_term: tip.1.0,
        }
    }

    /// Whether the node, whose log ends at `tip`, grants its vote, once it has
    /// caught up with the request's term: the terms are equal, the candidate's
    /// log is no older, and the vote of this term is free or already the
    /// candidate's.
    pub open spec fn grants(self, tip: (LogIndex, Term), msg: RequestVote) -> bool {
        let m = self.caught_up_with(msg.term);
        &&& msg.term == m.hard.current_term.0
        &&& up_to_date(tip, msg)
        &&& match m.hard.voted_for {
            Some(voted) => voted == PeerId(msg.candidate_id),
            None => true,
        }
    }

    /// The node after a request for its vote.
    pub open spec fn asked_for_vote(self, tip: (LogIndex, Term), msg: RequestVote) -> NodeModel {
        let m = self.caught_up_with(msg.term);
        if self.grants(tip, msg) {
            NodeModel {
                hard: HardState { voted_for: Some(PeerId(msg.candidate_id)), ..m.hard },
                ..m
            }
        } else {
            m
        }
    }

    /// Whether a leader is active as far as this node knows: it leads itself,
    /// or it heard from a leader within the shortest election timeout.
    pub open spec fn leader_active(self, now_ms: u64) -> bool {
        self.leads() || (self.leader_contact matches Some(t) && now_ms - t < if
            self.timing.election_min_ms == 0 {
            1
        } else {
            self.timing.election_min_ms as int
        })
    }

    /// Whether the node would grant its vote: no leader is active, the term is
    /// not behind, and the candidate's log is no older.
    pub open spec fn would_grant(
        self,
        tip: (LogIndex, Term),
        msg: RequestVote,
        now_ms: u64,
    ) -> bool {
        !self.leader_active(now_ms) && msg.term >= self.hard.current_term.0 && up_to_date(tip, msg)
    }

    /// The node as leader of its current term.
    pub open spec fn crowned(self, now_ms: u64) -> NodeModel {
        NodeModel {
            soft: SoftState {
                role: Role::Leader,
                is_leader: true,
                leader_id: Some(self.node_id),
                commit_index: self.soft.commit_index,
            },
            counters: RaftMetricsSnapshot {
                elections_won: bumped(self.counters.elections_won),
                ..self.counters
            },
            ..self
        }.with_leader_progress(now_ms)
    }

    /// Whether the node is still the candidate of `term`.
    pub open spec fn still_candidate(self, term: Term) -> bool {
        self.soft.role is Candidate && self.hard.current_term == term
    }
}

/// A vote response.
pub open spec fn is_vote_response(resp: RequestVoteResp, term: Term, granted: bool) -> bool {
    &&& resp.term == term.0
    &&& resp.vote_granted == if granted {
        1u8
    } else {
        0u8
    }
    &&& resp._pad@ == seq![0u8, 0, 0, 0, 0, 0, 0]
}

/// A vote response.
pub fn vote_response(term: Term, granted: bool) -> (r: RequestVoteResp)
    ensures
        is_vote_response(r, term, granted),
{
    let r = RequestVoteResp {
        term: term.0,
        vote_granted: if granted {
            1
        } else {
            0
        },
        _pad: [0, 0, 0, 0, 0, 0, 0],
    };
    assert(r._pad@ =~= seq![0u8, 0, 0, 0, 0, 0, 0]);
    r
}

/// Whether a candidate's log is at least as new as one that ends at `tip`.
pub open spec fn up_to_date(tip: (LogIndex, Term), msg: RequestVote) -> bool {
    msg.last_log_term > tip.1.0 || (msg.last_log_term == tip.1.0 && msg.last_log_index >= tip.0.0)
}

/// Whether a candidate's log is at least as new as one that ends at `tip`.
fn is_up_to_date(tip: (LogIndex, Term), msg: &RequestVote) -> (r: bool)
    ensures
        r == up_to_date(tip, *msg),
{
    msg.last_log_term > tip.1.0 || (msg.last_log_term == tip.1.0 && msg.last_log_index >= tip.0.0)
}

/// How a request for a vote came out. The log's end is asked of the storage, so
/// the write of a newer term, that question, and the write of the vote may fail.
pub open spec fn vote_outcome(
    before: NodeModel,
    stored: StorageModel,
    msg: RequestVote,
    r: Result<RequestVoteResp, RaftError>,
    after: NodeModel,
    stored_after: StorageModel,
) -> bool {
    let newer = msg.term > before.hard.current_term.0;
    let caught_up = before.caught_up_with(msg.term);
    let base = if newer {
        saved(stored, caught_up.hard)
    } else {
        stored
    };
    let granted = before.grants(stored.tip, msg);
    let end = before.asked_for_vote(stored.tip, msg);
    match r {
        Ok(resp) => {
            &&& after == end
            &&& is_vote_response(resp, end.hard.current_term, granted)
            &&& stored_after == if granted {
                saved(base, end.hard)
            } else {
                base
            }
        },
        Err(e) => {
            ||| newer && step_down_outcome(
                before,
                stored,
                Term(msg.term),
                Err(e),
                after,
                stored_after,
            )
            ||| after == caught_up && stored_after == base
            ||| granted && after == end && refused_cleanly(e, base, stored_after)
        },
    }
}

/// How the start of an election came out.
pub open spec fn campaign_begun<S: RaftStorage>(
    before: NodeModel,
    stored: StorageModel,
    r: Result<Option<RequestVote>, RaftError>,
    after: NodeModel,
    stored_after: StorageModel,
) -> bool {
    if !before.votes() {
        r == Ok::<Option<RequestVote>, RaftError>(None) && after == before && stored_after == stored
    } else {
        &&& after == before.campaigning()
        &&& match r {
            Ok(req) => req == Some(before.vote_request(stored.tip, before.next_term()))
                && stored_after == saved(stored, after.hard),
            Err(e) => S::fails_with(e) && (refused_cleanly(e, stored, stored_after) || stored_after
                == saved(stored, after.hard)),
        }
    }
}

/// How the start of a pre-vote came out.
pub open spec fn pre_vote_begun<S: RaftStorage>(
    m: NodeModel,
    stored: StorageModel,
    r: Result<Option<RequestVote>, RaftError>,
) -> bool {
    if !m.votes() {
        r == Ok::<Option<RequestVote>, RaftError>(None)
    } else {
        match r {
            Ok(req) => req == Some(m.vote_request(stored.tip, m.next_term())),
            Err(e) => S::fails_with(e),
        }
    }
}

/// How a pre-vote was answered.
pub open spec fn pre_vote_answered<S: RaftStorage>(
    m: NodeModel,
    stored: StorageModel,
    msg: RequestVote,
    now_ms: u64,
    r: Result<RequestVoteResp, RaftError>,
) -> bool {
    match r {
        Ok(resp) => is_vote_response(
            resp,
            m.hard.current_term,
            m.would_grant(stored.tip, msg, now_ms),
        ),
        Err(e) => S::fails_with(e),
    }
}

/// How the claim of a campaign that has the votes came out.
pub open spec fn leadership_claimed(
    before: NodeModel,
    term: Term,
    now_ms: u64,
    r: bool,
    after: NodeModel,
) -> bool {
    &&& r == before.still_candidate(term)
    &&& after == if r {
        before.crowned(now_ms)
    } else {
        before
    }
}

/// Where the gathering of votes stands. A campaign that is overtaken is lost, and so
/// is one that everybody has answered without a majority. Where nothing was heard, or
/// the time is over, a campaign ends without a quorum and a pre-vote is lost.
pub open spec fn vote_decision(
    m: NodeModel,
    tally: TallyModel,
    term: Term,
    pre_vote: bool,
    heard: bool,
    deadline_ms: u64,
    now_ms: u64,
) -> Result<VoteStep, RaftError> {
    if m.overtaken(term, pre_vote) {
        Ok(VoteStep::Lost)
    } else if m.majority(tally.granted) {
        Ok(VoteStep::Won)
    } else if !tally.open_for_answers() {
        Ok(VoteStep::Lost)
    } else if heard && now_ms < deadline_ms {
        Ok(VoteStep::Wait((deadline_ms - now_ms) as u64))
    } else if pre_vote {
        Ok(VoteStep::Lost)
    } else {
        Err(RaftError::NoQuorum)
    }
}

/// How the opening of a tally came out, given whom the requests reached.
pub open spec fn tally_opened(
    m: NodeModel,
    reached: Seq<PeerId>,
    r: Option<VoteTally>,
) -> bool {
    if m.majority(reached.push(m.node_id)) {
        r matches Some(t) && t@ == (TallyModel {
            term: m.hard.current_term,
            granted: seq![m.node_id],
            responders: Seq::empty(),
            possible: reached.len() + 1,
        })
    } else {
        r is None
    }
}

/// The voters other than this node.
pub open spec fn others(peers: Seq<PeerId>, node_id: PeerId) -> Seq<PeerId> {
    peers.filter(|p: PeerId| p != node_id)
}

/// The other voters are voters.
pub proof fn lemma_others_are_peers(peers: Seq<PeerId>, node_id: PeerId, p: PeerId)
    requires
        others(peers, node_id).contains(p),
    ensures
        peers.contains(p),
    decreases peers.len(),
{
    reveal(Seq::filter);
    if peers.len() > 0 {
        let all = others(peers, node_id);
        let rest = others(peers.drop_last(), node_id);
        if peers.last() == p {
            assert(peers[peers.len() - 1] == p);
        } else {
            let i = choose|i: int| 0 <= i < all.len() && all[i] == p;
            assert(rest[i] == p);
            lemma_others_are_peers(peers.drop_last(), node_id, p);
            let j = choose|j: int| 0 <= j < peers.drop_last().len() && peers.drop_last()[j] == p;
            assert(peers[j] == p);
        }
    }
}

impl RaftNode {
    /// The voters to ask for their votes.
    pub fn other_voters(&self) -> (r: Vec<PeerId>)
        ensures
            r@ == others(self@.peers, self@.node_id),
    {
        let mut out: Vec<PeerId> = Vec::new();
        let mut i: usize = 0;
        proof {
            reveal(Seq::filter);
        }
        assert(self.config.peers@.take(0) =~= Seq::empty());
        while i < self.config.peers.len()
            invariant
                i <= self.config.peers@.len(),
                out@ == others(self.config.peers@.take(i as int), self@.node_id),
            decreases self.config.peers@.len() - i,
        {
            proof {
                reveal(Seq::filter);
                assert(self.config.peers@.take(i + 1).drop_last() =~= self.config.peers@.take(
                    i as int,
                ));
            }
            let peer = self.config.peers[i];
            if peer != self.config.node_id {
                out.push(peer);
            }
            i = i + 1;
        }
        assert(self.config.peers@.take(i as int) =~= self.config.peers@);
        out
    }

    /// Starts an election: becomes a candidate of the next term, votes for
    /// itself, and makes that durable before anyone is asked. A node that is
    /// not a voter never campaigns.
    pub fn start_campaign<S: RaftStorage>(&mut self, storage: &mut S) -> (r: Result<
        Option<RequestVote>,
        RaftError,
    >)
        ensures
            campaign_begun::<S>(
                old(self)@,
                old(storage).model(),
                r,
                final(self)@,
                final(storage).model(),
            ),
    {
        if !contains(&self.config.peers, self.config.node_id) {
            return Ok(None);
        }
        self.soft_state.role = Role::Candidate;
        self.soft_state.is_leader = false;
        self.soft_state.leader_id = None;
        self.hard_state.current_term = Term(self.hard_state.current_term.0.saturating_add(1));
        self.hard_state.voted_for = Some(self.config.node_id);
        self.metrics.inc_elections_started();
        match storage.save_hard_state(&self.hard_state) {
            Err(e) => {
                return Err(e);
            },
            Ok(()) => {},
        }
        match storage.last_log_position() {
            Err(e) => Err(e),
            Ok((last_index, last_term)) => Ok(
                Some(
                    RequestVote {
                        term: self.hard_state.current_term.0,
                        candidate_id: self.config.node_id.0,
                        last_log_index: last_index.0,
                        last_log_term: last_term.0,
                    },
                ),
            ),
        }
    }

    /// Starts a pre-vote: asks whether an election at the next term could
    /// succeed, without changing anything.
    pub fn start_pre_vote<S: RaftStorage>(&self, storage: &S) -> (r: Result<
        Option<RequestVote>,
        RaftError,
    >)
        ensures
            pre_vote_begun::<S>(self@, storage.model(), r),
    {
        if !contains(&self.config.peers, self.config.node_id) {
            return Ok(None);
        }
        match storage.last_log_position() {
            Err(e) => Err(e),
            Ok((last_index, last_term)) => Ok(
                Some(
                    RequestVote {
                        term: self.hard_state.current_term.0.saturating_add(1),
                        candidate_id: self.config.node_id.0,
                        last_log_index: last_index.0,
                        last_log_term: last_term.0,
                    },
                ),
            ),
        }
    }

    /// Opens the tally of a campaign or a pre-vote at the current term, given
    /// whom the requests reached. Without a reachable majority there is no
    /// tally.
    pub fn open_tally(&self, reached: &Vec<PeerId>) -> (r: Option<VoteTally>)
        ensures
            tally_opened(self@, reached@, r),
    {
        let mut all = super::membership::copy_peers(reached);
        all.push(self.config.node_id);
        if !self.voter_majority(&all) {
            return None;
        }
        let mut granted: Vec<PeerId> = Vec::new();
        granted.push(self.config.node_id);
        let responders: Vec<PeerId> = Vec::new();
        assert(granted@ =~= seq![self@.node_id]);
        assert(responders@ =~= Seq::empty());
        Some(
            VoteTally {
                term: self.hard_state.current_term,
                granted,
                responders,
                possible: all.len(),
            },
        )
    }

    /// Whether the tally holds a majority.
    pub fn tally_suffices(&self, tally: &VoteTally) -> (r: bool)
        ensures
            r == self@.majority(tally@.granted),
    {
        self.voter_majority(&tally.granted)
    }

    /// Whether it is worth waiting for more answers.
    pub fn tally_open(&self, tally: &VoteTally) -> (r: bool)
        ensures
            r == (!self@.majority(tally@.granted) && tally@.open_for_answers()),
    {
        !self.voter_majority(&tally.granted) && tally.responders.len() < tally.possible
    }

    /// Counts the answers in a run of frames. An answer at a newer term ends
    /// the campaign: the node gives way to that term.
    pub fn count_answers<S: RaftStorage>(
        &mut self,
        storage: &mut S,
        tally: &mut VoteTally,
        frames: &[InboundRaftMessage<'_>],
        pre_vote: bool,
    ) -> (r: Result<CampaignStep, RaftError>)
        ensures
            ({
                let (t, stop) = counted(
                    old(tally)@,
                    old(self)@.hard.current_term.0,
                    frames@,
                    pre_vote,
                );
                &&& final(tally)@ == t
                &&& match stop {
                    Some(term) => (r matches Ok(step) ==> step is Deposed) && step_down_outcome(
                        old(self)@,
                        old(storage).model(),
                        Term(term),
                        match r {
                            Ok(_) => Ok(()),
                            Err(e) => Err(e),
                        },
                        final(self)@,
                        final(storage).model(),
                    ),
                    None => final(self)@ == old(self)@ && final(storage).model() == old(
                        storage,
                    ).model() && (r matches Ok(step) && step == if old(self)@.majority(
                        t.granted,
                    ) {
                        CampaignStep::Won
                    } else {
                        CampaignStep::Undecided
                    }),
                }
            }),
            r matches Err(e) ==> S::fails_with(e),
    {
        let mut i: usize = 0;
        assert(frames@.take(0) =~= Seq::empty());
        while i < frames.len()
            invariant
                i <= frames@.len(),
                self@ == old(self)@,
                storage.model() == old(storage).model(),
                counted(
                    old(tally)@,
                    old(self)@.hard.current_term.0,
                    frames@.take(i as int),
                    pre_vote,
                ) == (tally@, None::<u64>),
            decreases frames@.len() - i,
        {
            let inbound = &frames[i];
            let from = inbound.from;
            let answer: Option<RequestVoteResp> = campaign_answer(&inbound.message, pre_vote);
            proof {
                assert(frames@.take(i + 1).drop_last() =~= frames@.take(i as int));
                assert(frames@.take(i + 1).last() == *inbound);
            }
            match answer {
                None => {},
                Some(resp) => {
                    if !contains(&tally.responders, from) {
                        tally.responders.push(from);
                        if resp.term == tally.term.0 && resp.vote_granted != 0 {
                            tally.granted.push(from);
                        }
                        if resp.term > self.hard_state.current_term.0 {
                            proof {
                                lemma_counting_stops(
                                    old(tally)@,
                                    old(self)@.hard.current_term.0,
                                    frames@,
                                    pre_vote,
                                    i + 1,
                                );
                            }
                            return match self.step_down(storage, Term(resp.term)) {
                                Ok(()) => Ok(CampaignStep::Deposed),
                                Err(e) => Err(e),
                            };
                        }
                    }
                },
            }
            i = i + 1;
        }
        assert(frames@.take(i as int) =~= frames@);
        if self.voter_majority(&tally.granted) {
            Ok(CampaignStep::Won)
        } else {
            Ok(CampaignStep::Undecided)
        }
    }

    /// Whether the node is still the candidate of `term`. Frames handled during
    /// the campaign may have changed that; the votes then mean nothing.
    pub fn is_candidate_of(&self, term: Term) -> (r: bool)
        ensures
            r == self@.still_candidate(term),
    {
        matches!(self.soft_state.role, Role::Candidate) && self.hard_state.current_term == term
    }

    /// Whether a pre-vote at `pre_vote_term` has become pointless, because the
    /// node's own term has reached it.
    pub fn pre_vote_overtaken(&self, pre_vote_term: Term) -> (r: bool)
        ensures
            r == (self@.hard.current_term.0 >= pre_vote_term.0),
    {
        self.hard_state.current_term.0 >= pre_vote_term.0
    }

    /// Whether to wait for more votes, asked before the first frames and after each
    /// run of them. A campaign that is overtaken is lost, and so is one that everybody
    /// has answered without a majority. Where nothing was heard, or the time is over, a
    /// campaign ends without a quorum and a pre-vote is lost.
    pub fn vote_step(
        &self,
        tally: &VoteTally,
        term: Term,
        pre_vote: bool,
        heard: bool,
        deadline_ms: u64,
        now_ms: u64,
    ) -> (r: Result<VoteStep, RaftError>)
        ensures
            r == vote_decision(self@, tally@, term, pre_vote, heard, deadline_ms, now_ms),
    {
        let overtaken: bool = if pre_vote {
            self.pre_vote_overtaken(term)
        } else {
            !self.is_candidate_of(term)
        };
        if overtaken {
            return Ok(VoteStep::Lost);
        }
        if self.tally_suffices(tally) {
            return Ok(VoteStep::Won);
        }
        if !self.tally_open(tally) {
            return Ok(VoteStep::Lost);
        }
        if heard && now_ms < deadline_ms {
            return Ok(VoteStep::Wait(deadline_ms - now_ms));
        }
        if pre_vote {
            Ok(VoteStep::Lost)
        } else {
            Err(RaftError::NoQuorum)
        }
    }

    /// Ends a campaign that has the votes: the node leads, unless it is no
    /// longer the candidate of the term it campaigned in.
    pub fn claim_leadership(&mut self, term: Term, now_ms: u64) -> (r: bool)
        ensures
            leadership_claimed(old(self)@, term, now_ms, r, final(self)@),
    {
        if !self.is_candidate_of(term) {
            return false;
        }
        self.soft_state.role = Role::Leader;
        self.soft_state.is_leader = true;
        self.soft_state.leader_id = Some(self.config.node_id);
        self.metrics.inc_elections_won();
        self.initialize_leader_progress(now_ms);
        true
    }

    /// Answers a request for this node's vote. A newer term is adopted first;
    /// a vote is durable before it is given.
    pub fn handle_request_vote<S: RaftStorage>(
        &mut self,
        storage: &mut S,
        msg: &RequestVote,
    ) -> (r: Result<RequestVoteResp, RaftError>)
        ensures
            vote_outcome(
                old(self)@,
                old(storage).model(),
                *msg,
                r,
                final(self)@,
                final(storage).model(),
            ),
            r matches Err(e) ==> S::fails_with(e),
    {
        if msg.term > self.hard_state.current_term.0 {
            match self.step_down(storage, Term(msg.term)) {
                Err(e) => {
                    return Err(e);
                },
                Ok(()) => {},
            }
        }
        let candidate_id = PeerId(msg.candidate_id);
        let tip: (LogIndex, Term) = match storage.last_log_position() {
            Err(e) => {
                return Err(e);
            },
            Ok(tip) => tip,
        };
        let free: bool = match self.hard_state.voted_for {
            Some(voted) => voted == candidate_id,
            None => true,
        };
        let can_vote: bool = msg.term == self.hard_state.current_term.0 && is_up_to_date(tip, msg)
            && free;
        if can_vote {
            self.hard_state.voted_for = Some(candidate_id);
            match storage.save_hard_state(&self.hard_state) {
                Err(e) => {
                    return Err(e);
                },
                Ok(()) => {},
            }
        }
        Ok(vote_response(self.hard_state.current_term, can_vote))
    }

    /// Gives way to a newer term in a vote response that no campaign awaits.
    pub fn handle_request_vote_response<S: RaftStorage>(
        &mut self,
        storage: &mut S,
        resp: &RequestVoteResp,
    ) -> (r: Result<(), RaftError>)
        ensures
            resp.term > old(self)@.hard.current_term.0 ==> step_down_outcome(
                old(self)@,
                old(storage).model(),
                Term(resp.term),
                r,
                final(self)@,
                final(storage).model(),
            ),
            resp.term <= old(self)@.hard.current_term.0 ==> r is Ok && final(self)@ == old(self)@
                && final(storage).model() == old(storage).model(),
            r matches Err(e) ==> S::fails_with(e),
    {
        if resp.term > self.hard_state.current_term.0 {
            return self.step_down(storage, Term(resp.term));
        }
        Ok(())
    }

    /// Answers a pre-vote. Nothing changes, whatever is asked.
    pub fn handle_pre_vote<S: RaftStorage>(
        &self,
        storage: &S,
        msg: &RequestVote,
        now_ms: u64,
    ) -> (r: Result<RequestVoteResp, RaftError>)
        ensures
            pre_vote_answered::<S>(self@, storage.model(), *msg, now_ms, r),
    {
        let tip: (LogIndex, Term) = match storage.last_log_position() {
            Err(e) => {
                return Err(e);
            },
            Ok(tip) => tip,
        };
        let shortest: u64 = if self.config.timing.election_min_ms == 0 {
            1
        } else {
            self.config.timing.election_min_ms
        };
        let heard: bool = match self.last_leader_contact {
            Some(t) => now_ms.saturating_sub(t) < shortest,
            None => false,
        };
        let leader_active: bool = self.is_leader() || heard;
        let can_grant: bool = !leader_active && msg.term >= self.hard_state.current_term.0
            && is_up_to_date(tip, msg);
        Ok(vote_response(self.hard_state.current_term, can_grant))
    }

    /// Gives way to a newer term in a pre-vote response that no pre-vote awaits.
    pub fn handle_pre_vote_response<S: RaftStorage>(
        &mut self,
        storage: &mut S,
        resp: &RequestVoteResp,
    ) -> (r: Result<(), RaftError>)
        ensures
            resp.term > old(self)@.hard.current_term.0 ==> step_down_outcome(
                old(self)@,
                old(storage).model(),
                Term(resp.term),
                r,
                final(self)@,
                final(storage).model(),
            ),
            resp.term <= old(self)@.hard.current_term.0 ==> r is Ok && final(self)@ == old(self)@
                && final(storage).model() == old(storage).model(),
            r matches Err(e) ==> S::fails_with(e),
    {
        self.handle_request_vote_response(storage, resp)
    }
}

/// Counting stops for good at the first newer term.
proof fn lemma_counting_stops(
    tally: TallyModel,
    current: u64,
    frames: Seq<InboundRaftMessage<'_>>,
    pre_vote: bool,
    i: int,
)
    requires
        0 <= i <= frames.len(),
        counted(tally, current, frames.take(i), pre_vote).1 is Some,
    ensures
        counted(tally, current, frames, pre_vote) == counted(
            tally,
            current,
            frames.take(i),
            pre_vote,
        ),
    decreases frames.len() - i,
{
    if i < frames.len() {
        assert(frames.take(i + 1).drop_last() =~= frames.take(i));
        lemma_counting_stops(tally, current, frames, pre_vote, i + 1);
    } else {
        assert(frames.take(i) =~= frames);
    }
}

/// A node gives at most one vote per term: once its vote of a term is taken, no
/// request at that term moves it, and only the candidate that has it is granted
/// it again.
pub proof fn law_one_vote_per_term(
    m: NodeModel,
    tip: (LogIndex, Term),
    msg: RequestVote,
    candidate: PeerId,
)
    requires
        m.hard.voted_for == Some(candidate),
    ensures
        m.asked_for_vote(tip, msg).hard.current_term == m.hard.current_term
            ==> m.asked_for_vote(tip, msg).hard.voted_for == Some(candidate),
        m.grants(tip, msg) && msg.term == m.hard.current_term.0 ==> PeerId(msg.candidate_id)
            == candidate,
{
}

/// A vote goes only to a candidate whose log is at least as new, and always at
/// the node's own term after the request.
pub proof fn law_votes_need_newer_logs(m: NodeModel, tip: (LogIndex, Term), msg: RequestVote)
    ensures
        m.grants(tip, msg) ==> {
            &&& up_to_date(tip, msg)
            &&& m.asked_for_vote(tip, msg).hard.current_term.0 == msg.term
            &&& m.asked_for_vote(tip, msg).hard.voted_for == Some(PeerId(msg.candidate_id))
        },
        msg.term < m.hard.current_term.0 ==> !m.grants(tip, msg) && m.asked_for_vote(tip, msg)
            == m,
{
}

/// Two majorities of one configuration have a voter in common.
proof fn lemma_shared_voter(m: NodeModel, a: Seq<PeerId>, b: Seq<PeerId>)
    requires
        m.majority(a),
        m.majority(b),
    ensures
        exists|p: PeerId| #[trigger] a.contains(p) && b.contains(p),
{
    let voters = match m.joint {
        Some((old_peers, _)) => old_peers,
        None => m.peers,
    };
    law_majorities_intersect(voters, a, b);
    let p = choose|p: PeerId| #[trigger] voters.contains(p) && a.contains(p) && b.contains(p);
    assert(a.contains(p) && b.contains(p));
}

/// Two campaigns that both gathered a majority of the same configuration have a
/// voter that granted both.
pub proof fn law_two_winners_share_a_voter(m: NodeModel, a: TallyModel, b: TallyModel)
    requires
        m.majority(a.granted),
        m.majority(b.granted),
    ensures
        exists|p: PeerId| #[trigger] a.granted.contains(p) && b.granted.contains(p),
{
    lemma_shared_voter(m, a.granted, b.granted);
}

/// A term has at most one leader: where every voter gave its vote of the term to
/// one candidate, two campaigns of that term that both gathered a majority were of
/// the same candidate.
pub proof fn law_one_leader_per_term(
    m: NodeModel,
    votes: Map<PeerId, PeerId>,
    a: TallyModel,
    first: PeerId,
    b: TallyModel,
    second: PeerId,
)
    requires
        m.majority(a.granted),
        m.majority(b.granted),
        forall|p: PeerId| #[trigger] a.granted.contains(p) ==> votes[p] == first,
        forall|p: PeerId| #[trigger] b.granted.contains(p) ==> votes[p] == second,
    ensures
        first == second,
{
    law_two_winners_share_a_voter(m, a, b);
}

/// Whether a log that ends at `tip` ends at least at the entry of `term` at
/// `index`.
pub open spec fn reaches(tip: (LogIndex, Term), term: Term, index: LogIndex) -> bool {
    tip.1.0 > term.0 || (tip.1 == term && tip.0.0 >= index.0)
}

/// A winner's log is at least as new as every entry that a majority has: some
/// voter has the entry and granted its vote, which it gives to no older log.
pub proof fn law_winners_are_up_to_date(
    m: NodeModel,
    tips: Map<PeerId, (LogIndex, Term)>,
    a: TallyModel,
    msg: RequestVote,
    holders: Seq<PeerId>,
    term: Term,
    index: LogIndex,
)
    requires
        m.majority(a.granted),
        m.majority(holders),
        forall|p: PeerId| #[trigger] a.granted.contains(p) ==> up_to_date(tips[p], msg),
        forall|p: PeerId| #[trigger] holders.contains(p) ==> reaches(tips[p], term, index),
    ensures
        msg.last_log_term > term.0 || (msg.last_log_term == term.0 && msg.last_log_index
            >= index.0),
{
    lemma_shared_voter(m, a.granted, holders);
}

/// A peer counts at most once, however often it answers.
pub proof fn law_answers_count_once(
    t: TallyModel,
    from: PeerId,
    first: RequestVoteResp,
    second: RequestVoteResp,
)
    ensures
        t.answered(from, first).answered(from, second) == t.answered(from, first),
{
    let after = t.answered(from, first);
    if !t.responders.contains(from) {
        assert(after.responders[t.responders.len() as int] == from);
        assert(after.responders.contains(from));
    }
}

/// A leader denies every pre-vote, and so does a node that has just heard from
/// one.
pub proof fn law_pre_vote_protects_the_leader(
    m: NodeModel,
    tip: (LogIndex, Term),
    msg: RequestVote,
    now_ms: u64,
)
    ensures
        m.leads() ==> !m.would_grant(tip, msg, now_ms),
        m.leader_contact == Some(now_ms) ==> !m.would_grant(tip, msg, now_ms),
{
}

} // verus!
