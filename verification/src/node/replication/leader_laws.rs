//! What a leader sends, and what it makes of the answers.

use vstd::prelude::*;

use super::heartbeat::{heartbeat_outcome, HeartbeatStep};
use super::laws::{memory_is_true, same_at, sent_at, sent_from};
use super::propose::{proposal_begun, proposed};
use super::response::AppendVerdict;
use super::shared::backlog_outcome;
use crate::entry::{EntryRecord, LogEntry};
use crate::error::RaftError;
use crate::node::election::others;
use crate::node::laws::lemma_log_with;
use crate::node::progress::AppendAttemptState;
use crate::node::raft_node::NodeModel;
use crate::protocol::codec::wire::{AppendEntries, AppendEntriesResp};
use crate::protocol::message::records;
use crate::state::Role;
use crate::traits::{may_fail, RaftStorage, StorageModel};
use crate::types::{LogIndex, PeerId};

verus! {

/// Whether the next entry for a peer was moved back as a refusal asks: by one, but no
/// further than just past what the follower says it has, and within the log.
pub open spec fn stepped_back(was: u64, is: u64, hint: u64, last: u64) -> bool {
    &&& is >= 1
    &&& is <= last + 1 || last == u64::MAX
    &&& was <= last + 1 && was > 1 && hint + 1 < was ==> is == was - 1
    &&& was <= last + 1 && was >= 1 && was <= hint + 1 <= last + 1 ==> is == hint + 1
    &&& hint + 1 > last + 1 && last < u64::MAX ==> is == last + 1
}

/// An answer moves only the progress of its sender, and only at a leader that tracks
/// it. A success raises what is known to match to what it acknowledges and never lowers
/// it, and what is sent next follows that; a refusal that is not out of date leaves the
/// match alone and steps back; one that is changes nothing.
pub proof fn law_answers_move_their_senders_progress(
    m: NodeModel,
    from: PeerId,
    resp: AppendEntriesResp,
    p: PeerId,
)
    ensures
        ({
            let n = m.acked_by(from, resp);
            let was = m.progress[from];
            let is = n.progress[from];
            let last = m.last_log.0.0;
            let counts = m.soft.role == Role::Leader && m.progress.dom().contains(from);
            &&& n == (NodeModel { progress: n.progress, ..m })
            &&& n.progress.dom().contains(p) == m.progress.dom().contains(p)
            &&& p != from || !counts ==> n.progress[p] == m.progress[p]
            &&& counts && resp.success != 0 ==> {
                &&& is.match_index.0 >= was.match_index.0
                &&& is.match_index.0 >= resp.match_index
                &&& is.match_index == was.match_index || is.match_index.0 == resp.match_index
                &&& is.next_index.0 >= was.next_index.0
                &&& resp.match_index <= last && last < u64::MAX ==> is.next_index.0
                    > resp.match_index
                &&& is.next_index == was.next_index || is.next_index.0 == resp.match_index + 1
                    || is.next_index.0 == last + 1 || is.next_index.0 == u64::MAX
                &&& was.next_index.0 <= last + 1 && last < u64::MAX ==> is.next_index.0 <= last + 1
            }
            &&& counts && resp.success == 0 && resp.match_index >= was.match_index.0 ==> {
                &&& is.match_index == was.match_index
                &&& last < u64::MAX ==> stepped_back(
                    was.next_index.0,
                    is.next_index.0,
                    resp.match_index,
                    last,
                )
            }
            &&& counts && resp.success == 0 && resp.match_index < was.match_index.0 ==> is == was
        }),
{
}

/// What an answer to a request under way comes to. A success that does not cover what
/// was sent is out of date; one that reaches the target completes the request; one in
/// between calls for the rest. A refusal calls for an earlier entry unless it is out of
/// date. Whatever is not out of date moves the sender's progress to what it says.
pub proof fn law_verdicts_follow_the_answer(
    m: NodeModel,
    peer: PeerId,
    target: u64,
    state: AppendAttemptState,
    resp: AppendEntriesResp,
    p: PeerId,
)
    requires
        m.progress.dom().contains(peer),
    ensures
        ({
            let v = m.verdict(peer, target, state, resp);
            let n = m.advanced(peer, target, state, resp);
            let was = m.progress[peer];
            let is = n.progress[peer];
            let last = m.last_log.0.0;
            let stale = if resp.success != 0 {
                resp.match_index < state.sent_last_index.0
            } else {
                resp.match_index < was.match_index.0
            };
            &&& v == AppendVerdict::Ignored <==> stale
            &&& v == AppendVerdict::Completed <==> !stale && resp.success != 0 && resp.match_index
                >= target
            &&& stale ==> n == m
            &&& n == (NodeModel { progress: n.progress, ..m })
            &&& n.progress.dom().contains(p) == m.progress.dom().contains(p)
            &&& p != peer ==> n.progress[p] == m.progress[p]
            &&& !stale && resp.success != 0 ==> {
                &&& is.match_index.0 == resp.match_index
                &&& last < u64::MAX ==> is.next_index.0 == if resp.match_index < last {
                    resp.match_index + 1
                } else {
                    last + 1
                }
            }
            &&& !stale && resp.success == 0 ==> {
                &&& is.match_index == was.match_index
                &&& last < u64::MAX ==> stepped_back(
                    was.next_index.0,
                    is.next_index.0,
                    resp.match_index,
                    last,
                )
            }
        }),
{
}

/// Whether what a node knows by heart of its log is what the log holds: the terms that
/// it remembers, its tip, and its snapshot.
pub open spec fn knows_its_log(m: NodeModel, stored: StorageModel) -> bool {
    &&& memory_is_true(m, stored.log)
    &&& stored.log.dom().contains(m.last_log.0.0 as int) ==> stored.log[m.last_log.0.0 as int].term
        == m.last_log.1
    &&& stored.log.dom().contains(m.boundary.0.0 as int) ==> stored.log[m.boundary.0.0 as int].term
        == m.boundary.1
}

/// What is sent to a peer is the log itself: it starts at the peer's next entry, holds
/// every entry from there on without a gap up to the batch limit, names the entry
/// before it with its true term, and carries the leader's term, name and commit index.
pub proof fn law_requests_carry_the_log(
    m: NodeModel,
    stored: StorageModel,
    peer: PeerId,
    request: AppendEntries,
    entries: Vec<LogEntry<'_>>,
    last: LogIndex,
    after: NodeModel,
)
    requires
        backlog_outcome(m, stored, peer, Ok((request, entries, last)), after),
        m.progress[peer].next_index.0 >= 1,
        entries@.len() <= u32::MAX,
        m.progress[peer].next_index.0 + entries@.len() < u64::MAX,
        knows_its_log(m, stored),
    ensures
        ({
            let next = m.progress[peer].next_index.0 as int;
            let sent = records(entries@);
            let limit = m.limits.append_batch_entries as int;
            &&& m.progress.dom().contains(peer)
            &&& request.prev_log_index + 1 == next
            &&& request.term == m.hard.current_term.0
            &&& request.leader_id == m.node_id.0
            &&& request.leader_commit == m.soft.commit_index.0
            &&& request.entry_count == sent.len()
            &&& request._pad == m.probe
            &&& last.0 + 1 == next + sent.len()
            &&& sent.len() <= limit || sent.len() <= 1
            &&& sent.len() < limit || sent.len() == 0 ==> !stored.log.dom().contains(
                next + sent.len(),
            )
            &&& forall|i: int|
                next <= i < next + sent.len() ==> #[trigger] sent_at(stored.log, next - 1, sent, i)
            &&& request.prev_log_index == 0 ==> request.prev_log_term == 0
            &&& request.prev_log_index > 0 && stored.log.dom().contains(
                request.prev_log_index as int,
            ) ==> sent_from(stored.log, request, sent) && request.prev_log_term
                == stored.log[request.prev_log_index as int].term.0
        }),
        after.soft == m.soft,
        after.hard == m.hard,
        after.progress == m.progress,
        after.last_log == m.last_log,
{
    let next = m.progress[peer].next_index.0 as int;
    let sent = records(entries@);
    let prev = next - 1;
    assert forall|i: int| next <= i < next + sent.len() implies #[trigger] sent_at(
        stored.log,
        next - 1,
        sent,
        i,
    ) by {
        assert(crate::traits::is_from_log(stored.log, next, sent, i - next));
    }
    if m.arena.lookup(prev) is Some {
        assert(stored.log.dom().contains(prev));
    }
    if prev > 0 && stored.log.dom().contains(prev) {
        assert(request.prev_log_term == stored.log[prev].term.0);
        assert forall|i: int| prev < i <= prev + sent.len() implies #[trigger] sent_at(
            stored.log,
            prev,
            sent,
            i,
        ) by {
            assert(crate::traits::is_from_log(stored.log, next, sent, i - next));
        }
        assert(request.prev_log_index == prev);
        assert(sent.len() == entries@.len());
        assert(sent_from(stored.log, request, sent));
    }
}

/// In a round of heartbeats a peer that lacks entries gets them where the log still has
/// the next one; where it has not, a snapshot is called for, for one peer a round. A
/// peer that lacks nothing gets a request without entries, about the entry before its
/// next one.
pub proof fn law_heartbeats_give_peers_what_they_lack<S: RaftStorage>(
    m: NodeModel,
    stored: StorageModel,
    peer: PeerId,
    escalated: bool,
    now_ms: u64,
    r: HeartbeatStep,
    after: NodeModel,
)
    requires
        heartbeat_outcome::<S>(m, stored, peer, escalated, now_ms, r, after),
        m.soft.role == Role::Leader,
        m.progress.dom().contains(peer),
    ensures
        ({
            let next = m.progress[peer].next_index.0;
            let lacks = next <= m.last_log.0.0;
            let there = stored.log.dom().contains(next as int);
            &&& lacks && there ==> r is Repair
            &&& lacks && !there && !may_fail::<S>() ==> if escalated {
                r is Skip
            } else {
                r is Escalate
            }
            &&& !lacks ==> r is Bare || r is Skip
            &&& r matches HeartbeatStep::Bare(req) ==> {
                &&& req.entry_count == 0
                &&& req.term == m.hard.current_term.0
                &&& req.leader_id == m.node_id.0
                &&& req.leader_commit == m.soft.commit_index.0
                &&& next > 0 ==> req.prev_log_index + 1 == next
                &&& req._pad == m.probe
            }
            &&& !lacks && !may_fail::<S>() && next == m.last_log.0.0 + 1 ==> r is Bare
            &&& r matches HeartbeatStep::Bare(req) ==> (next == m.last_log.0.0 + 1 && next > 1
                ==> req.prev_log_term == m.last_log.1.0)
        }),
{
    assert(m.with_progress_started(now_ms) == m) by {
        if m.progress == Map::<PeerId, crate::node::progress::PeerProgress>::empty() {
            assert(false);
        }
    }
}

proof fn lemma_others_are_the_others(peers: Seq<PeerId>, node_id: PeerId, p: PeerId)
    ensures
        others(peers, node_id).contains(p) <==> peers.contains(p) && p != node_id,
    decreases peers.len(),
{
    reveal(Seq::filter);
    let all = others(peers, node_id);
    if peers.len() > 0 {
        let front = peers.drop_last();
        let rest = others(front, node_id);
        lemma_others_are_the_others(front, node_id, p);
        assert(peers[peers.len() - 1] == peers.last());
        if all.contains(p) {
            let i = choose|i: int| 0 <= i < all.len() && all[i] == p;
            if i < rest.len() {
                assert(rest[i] == p);
                let j = choose|j: int| 0 <= j < front.len() && front[j] == p;
                assert(peers[j] == p);
            }
        }
        if peers.contains(p) && p != node_id {
            let j = choose|j: int| 0 <= j < peers.len() && peers[j] == p;
            if j < front.len() {
                assert(front[j] == p);
                let i = choose|i: int| 0 <= i < rest.len() && rest[i] == p;
                assert(all[i] == p);
            } else {
                assert(all[all.len() - 1] == p);
            }
        }
    }
}

/// A leader asks every other voter for its vote and replicates to every other voter and
/// learner, and to nobody else.
pub proof fn law_leaders_reach_every_other_member(m: NodeModel, p: PeerId)
    ensures
        others(m.peers, m.node_id).contains(p) <==> m.peers.contains(p) && p != m.node_id,
        m.replication_targets().contains(p) <==> (m.peers.contains(p) || m.learners.contains(p))
            && p != m.node_id,
{
    let voters = others(m.peers, m.node_id);
    let learners = others(m.learners, m.node_id);
    let all = m.replication_targets();
    lemma_others_are_the_others(m.peers, m.node_id, p);
    lemma_others_are_the_others(m.learners, m.node_id, p);
    if voters.contains(p) {
        let i = choose|i: int| 0 <= i < voters.len() && voters[i] == p;
        assert(all[i] == p);
    }
    if learners.contains(p) {
        let i = choose|i: int| 0 <= i < learners.len() && learners[i] == p;
        assert(all[voters.len() + i] == p);
    }
    if all.contains(p) {
        let i = choose|i: int| 0 <= i < all.len() && all[i] == p;
        if i < voters.len() {
            assert(voters[i] == p);
        } else {
            assert(learners[i - voters.len()] == p);
        }
    }
}

/// A proposal is taken by a leader only, and by none while it hands leadership over; it
/// then goes to the end of the leader's log, in order, at the leader's term, and takes
/// nothing away.
pub proof fn law_proposals_go_to_the_end_of_the_log(
    before: NodeModel,
    stored: StorageModel,
    payloads: Seq<&[u8]>,
    now_ms: u64,
    r: Result<Seq<EntryRecord>, RaftError>,
    after: NodeModel,
    stored_after: StorageModel,
    i: int,
)
    requires
        proposal_begun(before, stored, payloads, now_ms, r, after, stored_after),
        before.last_log.0.0 + payloads.len() < u64::MAX,
    ensures
        before.soft.role != Role::Leader || (before.transfer is Some && now_ms
            < before.transfer->0.deadline_ms) ==> r is Err && after == before && stored_after
            == stored,
        before.soft.role == Role::Leader && before.transfer is Some && now_ms
            < before.transfer->0.deadline_ms ==> r == Err::<Seq<EntryRecord>, RaftError>(
            RaftError::NotLeader {
                leader_hint: Some(
                    crate::types::LeaderHint { leader_id: before.transfer->0.target },
                ),
            },
        ),
        r matches Ok(entries) ==> {
            let start = before.last_log.0.0 + 1;
            let end = before.last_log.0.0 + payloads.len();
            &&& entries.len() == payloads.len()
            &&& after.last_log.0.0 == end
            &&& payloads.len() > 0 ==> after.last_log.1 == before.hard.current_term
                && stored_after.tip == after.last_log
            &&& after.soft == before.soft
            &&& after.hard == before.hard
            &&& start <= i <= end ==> {
                let e = entries[i - start];
                &&& e.index.0 == i
                &&& e.term == before.hard.current_term
                &&& e.payload == payloads[i - start]@
                &&& stored_after.log.dom().contains(i)
                &&& stored_after.log[i] == e
            }
            &&& !(start <= i <= end) ==> same_at(stored.log, stored_after.log, i)
        },
{
    if before.leads() && !before.transferring(now_ms) && payloads.len() > 0 && r is Ok {
        let ready = before.window_checked(now_ms).with_progress_started(now_ms);
        let entries = proposed(ready, payloads);
        let start = before.last_log.0.0 + 1;
        assert(ready.last_log == before.last_log);
        assert forall|k: int| 0 <= k < entries.len() implies (#[trigger] entries[k]).index.0 == start
            + k by {}
        lemma_log_with(stored.log, entries, start, i);
        assert(entries.last() == entries[entries.len() - 1]);
    }
}

} // verus!
