//! What elections keep: who is owed a vote, who wins, and when a leader may stay.

use vstd::prelude::*;

use super::election::{
    campaign_begun, counted, leadership_claimed, pre_vote_answered, pre_vote_begun, tally_opened,
    vote_decision, vote_outcome, TallyModel, VoteStep, VoteTally,
};
use super::quorum::{law_majorities_are_more_than_half, more_than_half};
use super::raft_node::{step_down_outcome, NodeModel};
use crate::error::RaftError;
use crate::protocol::codec::wire::{RequestVote, RequestVoteResp};
use crate::protocol::message::{InboundRaftMessage, RaftMessage};
use crate::state::{HardState, Role};
use crate::traits::{RaftStorage, StorageModel};
use crate::types::{PeerId, Term};

verus! {

/// A vote is given where it is owed and nowhere else: the request is not behind, the
/// vote of its term is free or the candidate's already, and the candidate's log ends
/// at a newer term than the voter's, or at the same term and no earlier. A vote given
/// is durable; one that is not given leaves no trace but a newer term.
pub proof fn law_votes_are_given_where_owed(
    before: NodeModel,
    stored: StorageModel,
    msg: RequestVote,
    resp: RequestVoteResp,
    after: NodeModel,
    stored_after: StorageModel,
)
    requires
        vote_outcome(before, stored, msg, Ok(resp), after, stored_after),
    ensures
        ({
            let own = before.hard.current_term.0;
            let candidate = PeerId(msg.candidate_id);
            let free = msg.term > own || before.hard.voted_for is None || before.hard.voted_for
                == Some(candidate);
            let (index, term) = stored.tip;
            &&& resp.vote_granted != 0 <==> msg.term >= own && free && (msg.last_log_term > term.0
                || (msg.last_log_term == term.0 && msg.last_log_index >= index.0))
            &&& resp.term == if msg.term > own {
                msg.term
            } else {
                own
            }
            &&& after.hard.current_term.0 == resp.term
            &&& resp.vote_granted != 0 ==> after.hard.voted_for == Some(candidate)
                && stored_after.hard_state == after.hard
            &&& resp.vote_granted == 0 && msg.term <= own ==> after == before && stored_after
                == stored
            &&& resp.vote_granted == 0 && msg.term > own ==> after.hard.voted_for is None
                && stored_after.hard_state == after.hard
            &&& msg.term > own ==> after.soft.role == Role::Follower
            &&& stored_after.log == stored.log
            &&& after.soft.commit_index == before.soft.commit_index
        }),
{
}

/// Of two nodes that ask each other for a vote of a new term, at least one is owed it:
/// no two logs are so different that neither is up to date for the other.
pub proof fn law_of_two_logs_one_is_up_to_date(
    a: NodeModel,
    stored_a: StorageModel,
    from_a: RequestVote,
    to_a: RequestVoteResp,
    b: NodeModel,
    stored_b: StorageModel,
    from_b: RequestVote,
    to_b: RequestVoteResp,
    a_after: NodeModel,
    stored_a_after: StorageModel,
    b_after: NodeModel,
    stored_b_after: StorageModel,
)
    requires
        from_a.last_log_index == stored_a.tip.0.0 && from_a.last_log_term == stored_a.tip.1.0,
        from_b.last_log_index == stored_b.tip.0.0 && from_b.last_log_term == stored_b.tip.1.0,
        from_a.term > b.hard.current_term.0,
        from_b.term > a.hard.current_term.0,
        vote_outcome(a, stored_a, from_b, Ok(to_b), a_after, stored_a_after),
        vote_outcome(b, stored_b, from_a, Ok(to_a), b_after, stored_b_after),
    ensures
        to_a.vote_granted != 0 || to_b.vote_granted != 0,
        to_a.vote_granted != 0 && to_b.vote_granted != 0 ==> stored_a.tip == stored_b.tip,
{
}

/// A pre-vote is granted exactly where no leader is active, the term is not behind and
/// the log is at least as new: a leader denies it, and so does a node that heard from a
/// leader within the shortest election timeout.
pub proof fn law_pre_votes_are_given_where_owed<S: RaftStorage>(
    m: NodeModel,
    stored: StorageModel,
    msg: RequestVote,
    now_ms: u64,
    resp: RequestVoteResp,
)
    requires
        pre_vote_answered::<S>(m, stored, msg, now_ms, Ok(resp)),
    ensures
        ({
            let (index, term) = stored.tip;
            let newer = msg.last_log_term > term.0 || (msg.last_log_term == term.0
                && msg.last_log_index >= index.0);
            let quiet = match m.leader_contact {
                Some(t) => now_ms - t >= m.timing.election_min_ms && now_ms > t,
                None => true,
            };
            &&& resp.vote_granted != 0 <==> m.soft.role != Role::Leader && quiet && msg.term
                >= m.hard.current_term.0 && newer
            &&& resp.term == m.hard.current_term.0
        }),
{
}

/// A candidate campaigns at the term after its own, with its vote for itself made
/// durable, and asks with the end of its log; a node without a vote never campaigns,
/// and a pre-vote asks the same and changes nothing.
pub proof fn law_candidates_ask_for_the_next_term<S: RaftStorage>(
    before: NodeModel,
    stored: StorageModel,
    r: Result<Option<RequestVote>, RaftError>,
    after: NodeModel,
    stored_after: StorageModel,
    asked: Result<Option<RequestVote>, RaftError>,
)
    requires
        campaign_begun::<S>(before, stored, r, after, stored_after),
        pre_vote_begun::<S>(before, stored, asked),
    ensures
        !before.peers.contains(before.node_id) ==> {
            &&& r == Ok::<Option<RequestVote>, RaftError>(None)
            &&& asked == r
            &&& after == before
            &&& stored_after == stored
        },
        before.peers.contains(before.node_id) ==> {
            &&& after.soft.role == Role::Candidate
            &&& !after.soft.is_leader
            &&& after.soft.commit_index == before.soft.commit_index
            &&& after.hard.voted_for == Some(before.node_id)
            &&& before.hard.current_term.0 < u64::MAX ==> after.hard.current_term.0
                == before.hard.current_term.0 + 1
            &&& r matches Ok(req) ==> {
                &&& req matches Some(ask)
                &&& ask.term == after.hard.current_term.0
                &&& ask.candidate_id == before.node_id.0
                &&& ask.last_log_index == stored.tip.0.0
                &&& ask.last_log_term == stored.tip.1.0
                &&& stored_after.hard_state == after.hard
                &&& stored_after.log == stored.log
            }
            &&& asked is Ok && r is Ok ==> asked == r
        },
{
}

/// Only the candidate of the term takes the lead, and it starts from nothing known: it
/// is to send every other member what follows its own log, and it keeps its term, its
/// vote, its log and its commit index.
pub proof fn law_candidates_take_the_lead(
    before: NodeModel,
    term: Term,
    now_ms: u64,
    r: bool,
    after: NodeModel,
    p: PeerId,
)
    requires
        leadership_claimed(before, term, now_ms, r, after),
    ensures
        r <==> before.soft.role == Role::Candidate && before.hard.current_term == term,
        !r ==> after == before,
        r ==> {
            &&& after.soft.role == Role::Leader
            &&& after.soft.is_leader
            &&& after.soft.leader_id == Some(before.node_id)
            &&& after.soft.commit_index == before.soft.commit_index
            &&& after.hard == before.hard
            &&& after.last_log == before.last_log
            &&& after.progress.dom().contains(p) <==> p != before.node_id && (
            before.peers.contains(p) || before.learners.contains(p))
            &&& after.progress.dom().contains(p) ==> after.progress[p].match_index.0 == 0 && (
            before.last_log.0.0 < u64::MAX ==> after.progress[p].next_index.0
                == before.last_log.0.0 + 1)
            &&& after.contact.dom().contains(p) <==> p != before.node_id && before.peers.contains(p)
            &&& after.contact.dom().contains(p) ==> after.contact[p] == now_ms
        },
{
}

/// The votes win exactly where more than half of the voters gave theirs, of both sets
/// while a transition is under way, to a node that is still the candidate of the term,
/// or whose own term the pre-vote is still ahead of. While that is open the node waits
/// until the deadline; a campaign that nobody answers ends without a quorum, and a
/// pre-vote is lost.
pub proof fn law_votes_win_by_majority(
    m: NodeModel,
    tally: TallyModel,
    term: Term,
    pre_vote: bool,
    heard: bool,
    deadline_ms: u64,
    now_ms: u64,
)
    ensures
        ({
            let r = vote_decision(m, tally, term, pre_vote, heard, deadline_ms, now_ms);
            let gave = |p: PeerId| tally.granted.contains(p);
            let suffices = match m.joint {
                Some((old_peers, new_peers)) => more_than_half(old_peers, gave) && more_than_half(
                    new_peers,
                    gave,
                ),
                None => more_than_half(m.peers, gave),
            };
            let stands = if pre_vote {
                m.hard.current_term.0 < term.0
            } else {
                m.soft.role == Role::Candidate && m.hard.current_term == term
            };
            let open = tally.responders.len() < tally.possible;
            &&& r == Ok::<VoteStep, RaftError>(VoteStep::Won) <==> stands && suffices
            &&& r matches Ok(VoteStep::Wait(ms)) ==> stands && !suffices && open && heard
                && now_ms + ms == deadline_ms && ms > 0
            &&& stands && !suffices && open && heard && now_ms < deadline_ms ==> (r is Ok
                && r->Ok_0 is Wait)
            &&& r == Err::<VoteStep, RaftError>(RaftError::NoQuorum) <==> !pre_vote && stands
                && !suffices && open && !(heard && now_ms < deadline_ms)
            &&& r is Err ==> r == Err::<VoteStep, RaftError>(RaftError::NoQuorum)
        }),
{
    law_majorities_are_more_than_half(m.peers, m.joint, tally.granted);
}

/// Giving way to a newer term forgets the vote and every trace of having led, and
/// keeps the log and what is committed. Where the storage refuses, the role stays.
pub proof fn law_giving_way_keeps_the_log(
    before: NodeModel,
    stored: StorageModel,
    term: Term,
    r: Result<(), RaftError>,
    after: NodeModel,
    stored_after: StorageModel,
)
    requires
        step_down_outcome(before, stored, term, r, after, stored_after),
    ensures
        after.hard == (HardState { current_term: term, voted_for: None }),
        after.soft.commit_index == before.soft.commit_index,
        after.last_applied == before.last_applied,
        after.last_log == before.last_log,
        after.arena == before.arena,
        after.peers == before.peers,
        after.learners == before.learners,
        after.joint == before.joint,
        r is Ok ==> {
            &&& after.soft.role == Role::Follower
            &&& !after.soft.is_leader
            &&& after.soft.leader_id is None
            &&& after.transfer is None
            &&& forall|p: PeerId|
                !(#[trigger] after.progress.dom().contains(p)) && !after.contact.dom().contains(p)
                    && !after.pending.dom().contains(p)
            &&& stored_after.hard_state == after.hard
            &&& stored_after.log == stored.log
            &&& stored_after.tip == stored.tip
            &&& stored_after.snapshot == stored.snapshot
        },
        r is Err ==> after.soft == before.soft,
{
}

/// Whether a frame carries an answer that counts in a campaign, or in a pre-vote.
pub open spec fn is_answer(f: InboundRaftMessage<'_>, pre_vote: bool) -> bool {
    match f.message {
        RaftMessage::RequestVoteResp(_) => !pre_vote,
        RaftMessage::PreVoteResp(_) => pre_vote,
        _ => false,
    }
}

/// The term and the vote in a frame that carries an answer.
pub open spec fn answer_of(f: InboundRaftMessage<'_>) -> (u64, bool) {
    match f.message {
        RaftMessage::RequestVoteResp(resp) => (resp.term, resp.vote_granted != 0),
        RaftMessage::PreVoteResp(resp) => (resp.term, resp.vote_granted != 0),
        _ => (0, false),
    }
}

/// Only peers that answered become responders, and only votes given at the tally's
/// term become votes. Nobody is forgotten, and counting stops only at an answer of a
/// newer term.
pub proof fn law_counted_votes_were_given(
    tally: TallyModel,
    current: u64,
    frames: Seq<InboundRaftMessage<'_>>,
    pre_vote: bool,
    p: PeerId,
)
    ensures
        ({
            let (t, stop) = counted(tally, current, frames, pre_vote);
            &&& t.term == tally.term
            &&& t.possible == tally.possible
            &&& tally.granted.contains(p) ==> t.granted.contains(p)
            &&& tally.responders.contains(p) ==> t.responders.contains(p)
            &&& t.responders.contains(p) && !tally.responders.contains(p) ==> exists|i: int|
                0 <= i < frames.len() && (#[trigger] frames[i]).from == p && is_answer(
                    frames[i],
                    pre_vote,
                )
            &&& t.granted.contains(p) && !tally.granted.contains(p) ==> exists|i: int|
                0 <= i < frames.len() && (#[trigger] frames[i]).from == p && is_answer(
                    frames[i],
                    pre_vote,
                ) && answer_of(frames[i]) == (tally.term.0, true)
            &&& stop matches Some(term) ==> term > current && exists|i: int|
                0 <= i < frames.len() && is_answer(#[trigger] frames[i], pre_vote) && answer_of(
                    frames[i],
                ).0 == term
        }),
    decreases frames.len(),
{
    if frames.len() > 0 {
        let front = frames.drop_last();
        law_counted_votes_were_given(tally, current, front, pre_vote, p);
        let (t, stop) = counted(tally, current, front, pre_vote);
        let (u, end) = counted(tally, current, frames, pre_vote);
        let last = frames.last();
        assert(frames[frames.len() - 1] == last);
        assert forall|i: int| 0 <= i < front.len() implies front[i] == frames[i] by {}
        if stop is Some {
            let i = choose|i: int|
                0 <= i < front.len() && is_answer(#[trigger] front[i], pre_vote) && answer_of(
                    front[i],
                ).0 == stop->0;
            assert(frames[i] == front[i]);
        }
        if t.responders.contains(p) {
            let j = choose|j: int| 0 <= j < t.responders.len() && t.responders[j] == p;
            assert(u.responders[j] == p);
            if !tally.responders.contains(p) {
                let i = choose|i: int|
                    0 <= i < front.len() && (#[trigger] front[i]).from == p && is_answer(
                        front[i],
                        pre_vote,
                    );
                assert(frames[i] == front[i]);
            }
        } else if u.responders.contains(p) {
            let j = choose|j: int| 0 <= j < u.responders.len() && u.responders[j] == p;
            if j < t.responders.len() {
                assert(t.responders[j] == p);
            }
            assert(last.from == p);
        }
        if t.granted.contains(p) {
            let j = choose|j: int| 0 <= j < t.granted.len() && t.granted[j] == p;
            assert(u.granted[j] == p);
            if !tally.granted.contains(p) {
                let i = choose|i: int|
                    0 <= i < front.len() && (#[trigger] front[i]).from == p && is_answer(
                        front[i],
                        pre_vote,
                    ) && answer_of(front[i]) == (tally.term.0, true);
                assert(frames[i] == front[i]);
            }
        } else if u.granted.contains(p) {
            let j = choose|j: int| 0 <= j < u.granted.len() && u.granted[j] == p;
            if j < t.granted.len() {
                assert(t.granted[j] == p);
            }
            assert(last.from == p);
        }
    }
}

/// A peer's first answer counts: where counting was not stopped by a newer term, it is
/// at no newer term, its sender is a responder, and a vote that it gives at the
/// tally's term is a vote.
pub proof fn law_first_answers_count(
    tally: TallyModel,
    current: u64,
    frames: Seq<InboundRaftMessage<'_>>,
    pre_vote: bool,
    i: int,
)
    requires
        0 <= i < frames.len(),
        is_answer(frames[i], pre_vote),
        !tally.responders.contains(frames[i].from),
        forall|j: int|
            0 <= j < i && is_answer(#[trigger] frames[j], pre_vote) ==> frames[j].from
                != frames[i].from,
        counted(tally, current, frames, pre_vote).1 is None,
    ensures
        ({
            let t = counted(tally, current, frames, pre_vote).0;
            &&& answer_of(frames[i]).0 <= current
            &&& t.responders.contains(frames[i].from)
            &&& answer_of(frames[i]) == (tally.term.0, true) ==> t.granted.contains(frames[i].from)
        }),
    decreases frames.len(),
{
    let front = frames.drop_last();
    let (t, stop) = counted(tally, current, front, pre_vote);
    let u = counted(tally, current, frames, pre_vote).0;
    let who = frames[i].from;
    law_counted_votes_were_given(tally, current, front, pre_vote, who);
    assert forall|j: int| 0 <= j < front.len() implies front[j] == frames[j] by {}
    if i < front.len() {
        law_first_answers_count(tally, current, front, pre_vote, i);
        let j = choose|j: int| 0 <= j < t.responders.len() && t.responders[j] == who;
        assert(u.responders[j] == who);
        if t.granted.contains(who) {
            let k = choose|k: int| 0 <= k < t.granted.len() && t.granted[k] == who;
            assert(u.granted[k] == who);
        }
    } else {
        if t.responders.contains(who) {
            let j = choose|j: int|
                0 <= j < front.len() && (#[trigger] front[j]).from == who && is_answer(
                    front[j],
                    pre_vote,
                );
            assert(frames[j] == front[j]);
        }
        assert(u.responders[t.responders.len() as int] == who);
        if answer_of(frames[i]) == (tally.term.0, true) {
            assert(u.granted[t.granted.len() as int] == who);
        }
    }
}

proof fn lemma_active_among(m: NodeModel, peers: Seq<PeerId>, now_ms: u64, p: PeerId)
    ensures
        m.active_among(peers, now_ms).contains(p) <==> p == m.node_id || (peers.contains(p)
            && m.recently_heard(p, now_ms)),
    decreases peers.len(),
{
    let all = m.active_among(peers, now_ms);
    if peers.len() > 0 {
        let front = peers.drop_last();
        let last = peers.last();
        let rest = m.active_among(front, now_ms);
        lemma_active_among(m, front, now_ms, p);
        assert(peers[peers.len() - 1] == last);
        if rest.contains(p) {
            let i = choose|i: int| 0 <= i < rest.len() && rest[i] == p;
            assert(all[i] == p);
            if front.contains(p) {
                let j = choose|j: int| 0 <= j < front.len() && front[j] == p;
                assert(peers[j] == p);
            }
        }
        if all.contains(p) && !rest.contains(p) {
            let i = choose|i: int| 0 <= i < all.len() && all[i] == p;
            if i < rest.len() {
                assert(rest[i] == p);
            }
            assert(p == last);
        }
        if peers.contains(p) && !front.contains(p) {
            let j = choose|j: int| 0 <= j < peers.len() && peers[j] == p;
            if j < front.len() {
                assert(front[j] == p);
            }
            if p != m.node_id && m.recently_heard(p, now_ms) {
                assert(all[rest.len() as int] == p);
            }
        }
    } else {
        assert(all[0] == m.node_id);
    }
}

/// Properties that agree on every peer pick the same peers.
proof fn lemma_filters_agree(
    peers: Seq<PeerId>,
    f: spec_fn(PeerId) -> bool,
    g: spec_fn(PeerId) -> bool,
)
    requires
        forall|i: int| 0 <= i < peers.len() ==> f(#[trigger] peers[i]) == g(peers[i]),
    ensures
        peers.filter(f) == peers.filter(g),
    decreases peers.len(),
{
    reveal(Seq::filter);
    if peers.len() > 0 {
        let front = peers.drop_last();
        assert forall|i: int| 0 <= i < front.len() implies f(#[trigger] front[i]) == g(front[i]) by {
            assert(front[i] == peers[i]);
        }
        lemma_filters_agree(front, f, g);
        assert(peers[peers.len() - 1] == peers.last());
    }
}

/// A leader may stay while more than half of the voters, itself included, were heard
/// from within the longest election timeout, and no longer; while a transition is under
/// way that must hold of both voter sets.
pub proof fn law_leaders_stay_with_a_majority(m: NodeModel, now_ms: u64)
    requires
        m.joint matches Some((o, n)) ==> forall|p: PeerId|
            o.contains(p) || n.contains(p) ==> #[trigger] m.peers.contains(p),
    ensures
        ({
            let heard = |p: PeerId|
                p == m.node_id || (m.contact.dom().contains(p) && (now_ms - m.contact[p]
                    < m.timing.election_max_ms || now_ms <= m.contact[p]));
            m.majority(m.active_voters(now_ms)) <==> match m.joint {
                Some((old_peers, new_peers)) => more_than_half(old_peers, heard) && more_than_half(
                    new_peers,
                    heard,
                ),
                None => more_than_half(m.peers, heard),
            }
        }),
{
    let heard = |p: PeerId|
        p == m.node_id || (m.contact.dom().contains(p) && (now_ms - m.contact[p]
            < m.timing.election_max_ms || now_ms <= m.contact[p]));
    let active = m.active_voters(now_ms);
    let counts = |p: PeerId| active.contains(p);
    law_majorities_are_more_than_half(m.peers, m.joint, active);
    assert forall|p: PeerId| m.peers.contains(p) implies #[trigger] counts(p) == heard(p) by {
        lemma_active_among(m, m.peers, now_ms, p);
    }
    assert forall|i: int| 0 <= i < m.peers.len() implies counts(#[trigger] m.peers[i]) == heard(
        m.peers[i],
    ) by {
        assert(m.peers.contains(m.peers[i]));
    }
    lemma_filters_agree(m.peers, counts, heard);
    match m.joint {
        Some((o, n)) => {
            assert forall|i: int| 0 <= i < o.len() implies counts(#[trigger] o[i]) == heard(o[i]) by {
                assert(o.contains(o[i]));
            }
            lemma_filters_agree(o, counts, heard);
            assert forall|i: int| 0 <= i < n.len() implies counts(#[trigger] n[i]) == heard(n[i]) by {
                assert(n.contains(n[i]));
            }
            lemma_filters_agree(n, counts, heard);
        },
        None => {},
    }
}

/// A tally is opened exactly where the node and those it has reached are a majority
/// together. It begins at the node's own term, with its own vote and no other, and no
/// answer has come in.
pub proof fn law_tallies_begin_with_the_own_vote(
    m: NodeModel,
    reached: Seq<PeerId>,
    r: Option<VoteTally>,
)
    requires
        tally_opened(m, reached, r),
    ensures
        r is Some <==> ({
            let counts = |p: PeerId| reached.push(m.node_id).contains(p);
            match m.joint {
                Some((old_peers, new_peers)) => more_than_half(old_peers, counts)
                    && more_than_half(new_peers, counts),
                None => more_than_half(m.peers, counts),
            }
        }),
        r matches Some(t) ==> {
            &&& t@.term == m.hard.current_term
            &&& t@.granted.len() == 1 && t@.granted[0] == m.node_id
            &&& t@.responders.len() == 0
            &&& t@.possible == reached.len() + 1
        },
{
    law_majorities_are_more_than_half(m.peers, m.joint, reached.push(m.node_id));
}

} // verus!
