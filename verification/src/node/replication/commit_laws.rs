//! What it takes for an entry to be committed.

use vstd::prelude::*;

use super::propose::{ack_outcome, finish_outcome, opened_gather, GatherModel};
use super::shared::{commit_outcome, lemma_quorum_index, quorum_index};
use crate::error::RaftError;
use crate::node::election::others;
use crate::node::quorum::{
    count_ge, is_quorum_value, lemma_bar_is_an_ack, lemma_count_ge_all, lemma_count_ge_monotone,
    more_than_half, quorum_spec,
};
use crate::node::raft_node::{NodeModel, RaftNode};
use crate::protocol::codec::wire::AppendEntriesResp;
use crate::traits::{RaftStorage, StorageModel};
use crate::types::{LogIndex, PeerId, Term};

verus! {

/// Whether `peer` is known to have the log up to `index`: the leader has its own log,
/// and everybody else what was acknowledged.
pub open spec fn has_index(m: NodeModel, peer: PeerId, index: u64) -> bool {
    if peer == m.node_id {
        m.last_log.0.0 >= index
    } else {
        m.progress.dom().contains(peer) && m.progress[peer].match_index.0 >= index
    }
}

/// Whether more than half of the voters have the log up to `index`, of both voter
/// sets while a transition is under way.
pub open spec fn held_by_majority(m: NodeModel, index: u64) -> bool {
    match m.joint {
        Some((old_peers, new_peers)) => {
            &&& more_than_half(old_peers, |p: PeerId| has_index(m, p, index))
            &&& more_than_half(new_peers, |p: PeerId| has_index(m, p, index))
        },
        None => more_than_half(m.peers, |p: PeerId| has_index(m, p, index)),
    }
}

proof fn lemma_acks_counted(
    m: NodeModel,
    subset: Seq<PeerId>,
    index: u64,
    has: spec_fn(PeerId) -> bool,
)
    requires
        index > 0,
        forall|p: PeerId| #[trigger] has(p) == has_index(m, p, index),
    ensures
        count_ge(m.acks_of(subset), index as int) == subset.filter(has).len(),
    decreases subset.len(),
{
    reveal(Seq::filter);
    if subset.len() > 0 {
        lemma_acks_counted(m, subset.drop_last(), index, has);
        assert(m.acks_of(subset).drop_last() =~= m.acks_of(subset.drop_last()));
        assert(m.acks_of(subset).last() == m.ack_of(subset.last()));
    }
}

/// Counting the other voters is counting all of them but this one.
proof fn lemma_others_counted(
    m: NodeModel,
    peers: Seq<PeerId>,
    index: u64,
    has: spec_fn(PeerId) -> bool,
)
    requires
        index > 0,
        peers.no_duplicates(),
        forall|p: PeerId| #[trigger] has(p) == has_index(m, p, index),
    ensures
        count_ge(m.acks_of(others(peers, m.node_id)), index as int) + if peers.contains(m.node_id)
            && has(m.node_id) {
            1nat
        } else {
            0nat
        } == peers.filter(has).len(),
    decreases peers.len(),
{
    reveal(Seq::filter);
    if peers.len() > 0 {
        let front = peers.drop_last();
        let last = peers.last();
        lemma_others_counted(m, front, index, has);
        assert(front.no_duplicates());
        let rest = others(front, m.node_id);
        let all = others(peers, m.node_id);
        if last == m.node_id {
            assert(all =~= rest);
            assert(!front.contains(last)) by {
                if front.contains(last) {
                    let i = choose|i: int| 0 <= i < front.len() && front[i] == last;
                    assert(peers[i] == peers[peers.len() - 1]);
                }
            }
            assert(peers[peers.len() - 1] == last);
            assert(peers.contains(last));
        } else {
            assert(all =~= rest.push(last));
            assert(m.acks_of(all).drop_last() =~= m.acks_of(rest));
            assert(m.acks_of(all).last() == m.ack_of(last));
            assert(peers.contains(m.node_id) == front.contains(m.node_id)) by {
                if peers.contains(m.node_id) {
                    let i = choose|i: int| 0 <= i < peers.len() && peers[i] == m.node_id;
                    assert(front[i] == m.node_id);
                }
                if front.contains(m.node_id) {
                    let i = choose|i: int| 0 <= i < front.len() && front[i] == m.node_id;
                    assert(peers[i] == m.node_id);
                }
            }
        }
    }
}

/// One more value in front counts like any other.
proof fn lemma_count_front(first: u64, acks: Seq<u64>, v: int)
    ensures
        count_ge(seq![first] + acks, v) == count_ge(acks, v) + if first >= v {
            1nat
        } else {
            0nat
        },
    decreases acks.len(),
{
    let all = seq![first] + acks;
    if acks.len() > 0 {
        lemma_count_front(first, acks.drop_last(), v);
        assert(all.drop_last() =~= seq![first] + acks.drop_last());
    } else {
        assert(all.drop_last() =~= Seq::<u64>::empty());
        assert(all.last() == first);
        assert(count_ge(all.drop_last(), v) == 0);
    }
}

/// There is a highest index that enough acks reach.
proof fn lemma_highest_reached(acks: Seq<u64>, q: nat, v: u64)
    requires
        1 <= q <= acks.len(),
        forall|w: int| w > v ==> #[trigger] count_ge(acks, w) < q,
    ensures
        is_quorum_value(acks, q, quorum_index(acks, q)),
    decreases v,
{
    if count_ge(acks, v as int) >= q {
        assert(is_quorum_value(acks, q, v));
        lemma_quorum_index(acks, q, v);
    } else {
        lemma_count_ge_all(acks);
        lemma_highest_reached(acks, q, (v - 1) as u64);
    }
}

proof fn lemma_quorum_index_is_reached(acks: Seq<u64>, q: nat)
    requires
        1 <= q <= acks.len(),
    ensures
        is_quorum_value(acks, q, quorum_index(acks, q)),
{
    assert forall|w: int| w > u64::MAX implies #[trigger] count_ge(acks, w) < q by {
        lemma_bar_is_an_ack(acks, w);
    }
    lemma_highest_reached(acks, q, u64::MAX);
}

/// What more than half of one voter set has is what its quorum index reaches.
proof fn lemma_subset_quorum(m: NodeModel, subset: Seq<PeerId>, index: u64)
    requires
        index > 0,
    ensures
        more_than_half(subset, |p: PeerId| has_index(m, p, index)) <==> (m.subset_quorum(
            subset,
        ) matches Some(q) && q >= index),
{
    let has = |p: PeerId| has_index(m, p, index);
    lemma_acks_counted(m, subset, index, has);
    if subset.len() > 0 {
        let acks = m.acks_of(subset);
        let need = quorum_spec(subset.len());
        lemma_quorum_index_is_reached(acks, need);
        let q = quorum_index(acks, need);
        if q >= index {
            lemma_count_ge_monotone(acks, index as int, q as int);
        } else {
            assert(count_ge(acks, index as int) < need);
        }
    } else {
        reveal(Seq::filter);
    }
}

/// The commit point reaches exactly what a majority has.
proof fn lemma_commit_point(m: NodeModel, index: u64)
    requires
        index > 0,
        m.joint is None ==> m.peers.no_duplicates() && m.peers.contains(m.node_id),
    ensures
        held_by_majority(m, index) <==> (m.commit_point() matches Some(q) && q >= index),
{
    match m.joint {
        Some((old_peers, new_peers)) => {
            lemma_subset_quorum(m, old_peers, index);
            lemma_subset_quorum(m, new_peers, index);
        },
        None => {
            let has = |p: PeerId| has_index(m, p, index);
            let rest = m.acks_of(others(m.peers, m.node_id));
            let acks = m.voter_acks();
            let need = quorum_spec(m.peers.len());
            lemma_others_counted(m, m.peers, index, has);
            lemma_count_front(m.last_log.0.0, rest, index as int);
            lemma_count_ge_monotone(acks, index as int, index as int);
            if need <= acks.len() {
                lemma_quorum_index_is_reached(acks, need);
                let q = quorum_index(acks, need);
                if q >= index {
                    lemma_count_ge_monotone(acks, index as int, q as int);
                } else {
                    assert(count_ge(acks, index as int) < need);
                }
            }
        },
    }
}

/// Whether the leader's own entry at `index` is of `term`: its tip, or a term that
/// it remembers, or else what its storage holds.
pub open spec fn entry_is_of(m: NodeModel, stored: StorageModel, index: u64, term: Term) -> bool {
    let run = m.arena;
    if index == m.last_log.0.0 {
        m.last_log.1 == term
    } else if run.base <= index < run.base + run.terms.len() {
        run.terms[index - run.base] == term
    } else {
        stored.log.dom().contains(index as int) && stored.log[index as int].term == term
    }
}

/// A leader commits by counting only what more than half of the voters have, of both
/// sets while a transition is under way, and only an entry of its own term.
pub proof fn law_commits_are_held_by_a_majority(
    m: NodeModel,
    stored: StorageModel,
    r: Result<(), RaftError>,
    after: NodeModel,
)
    requires
        commit_outcome(m, stored, r, after),
        m.hard.current_term.0 > 0,
        m.joint is None ==> m.peers.no_duplicates() && m.peers.contains(m.node_id),
    ensures
        after.soft.commit_index.0 >= m.soft.commit_index.0,
        after.soft.commit_index != m.soft.commit_index ==> {
            &&& held_by_majority(m, after.soft.commit_index.0)
            &&& entry_is_of(m, stored, after.soft.commit_index.0, m.hard.current_term)
        },
{
    if after.soft.commit_index != m.soft.commit_index {
        lemma_commit_point(m, after.soft.commit_index.0);
    }
}

/// What a majority has is committed: where more than half of the voters have the log
/// up to an index past what is committed and no further, and the entry there is of the
/// leader's own term, the commit index moves there.
pub proof fn law_what_a_majority_has_is_committed(
    m: NodeModel,
    stored: StorageModel,
    after: NodeModel,
    index: u64,
)
    requires
        commit_outcome(m, stored, Ok(()), after),
        m.joint is None ==> m.peers.no_duplicates() && m.peers.contains(m.node_id),
        m.peers.len() <= 1 || exists|p: PeerId| #[trigger] m.progress.dom().contains(p),
        m.soft.commit_index.0 < index < u64::MAX,
        m.soft.commit_index.0 < m.last_log.0.0,
        held_by_majority(m, index),
        !held_by_majority(m, (index + 1) as u64),
        entry_is_of(m, stored, index, m.hard.current_term),
    ensures
        after.soft.commit_index.0 == index,
{
    lemma_commit_point(m, index);
    lemma_commit_point(m, (index + 1) as u64);
    if m.peers.len() > 1 {
        let p = choose|p: PeerId| #[trigger] m.progress.dom().contains(p);
        assert(m.progress.dom().contains(p));
    }
    assert(m.commit_candidate() == Some(index));
}

/// The other voters that are known to have a whole proposal and are not awaited any
/// more.
pub open spec fn holders(m: NodeModel, g: GatherModel) -> Set<PeerId> {
    Set::new(
        |p: PeerId|
            {
                &&& m.peers.contains(p)
                &&& p != m.node_id
                &&& !g.pending.dom().contains(p)
                &&& m.progress.dom().contains(p)
                &&& m.progress[p].match_index.0 >= g.last_index.0
            },
    )
}

/// Whether the acks of a proposal were counted right: no more of them than the leader
/// and the other voters that have the whole of it.
pub open spec fn counted_right(m: NodeModel, g: GatherModel) -> bool {
    &&& g.term.0 <= m.hard.current_term.0
    &&& !g.pending.dom().contains(m.node_id)
    &&& m.leads() && m.hard.current_term == g.term ==> g.accepted <= 1 + holders(m, g).len()
}

proof fn lemma_holders_finite(m: NodeModel, g: GatherModel)
    ensures
        holders(m, g).finite(),
{
    vstd::seq_lib::seq_to_set_is_finite(m.peers);
    assert(holders(m, g).subset_of(m.peers.to_set()));
    vstd::set_lib::lemma_len_subset(holders(m, g), m.peers.to_set());
}

/// An ack counts towards a proposal only where it reaches the proposal's last entry
/// and comes from a voter that was asked, and then it counts once. A success that
/// covers what was sent and ends before that entry calls for the rest; a newer term
/// counts for nothing.
pub proof fn law_acks_count_once_complete(
    m: NodeModel,
    stored: StorageModel,
    g: GatherModel,
    from: PeerId,
    resp: AppendEntriesResp,
    r: Result<Option<PeerId>, RaftError>,
    after: NodeModel,
    stored_after: StorageModel,
    g_after: GatherModel,
)
    requires
        ack_outcome(m, stored, g, from, resp, r, after, stored_after, g_after),
    ensures
        g_after.last_index == g.last_index,
        g_after.needed == g.needed,
        g_after.term == g.term,
        g.accepted <= g_after.accepted <= g.accepted + 1,
        g_after.accepted > g.accepted ==> {
            &&& resp.success != 0
            &&& resp.match_index >= g.last_index.0
            &&& resp.term <= m.hard.current_term.0
            &&& m.peers.contains(from)
            &&& g.pending.dom().contains(from)
            &&& !g_after.pending.dom().contains(from)
            &&& after.progress[from].match_index.0 == resp.match_index
        },
        resp.term <= m.hard.current_term.0 && g.pending.dom().contains(from)
            && m.progress.dom().contains(from) && resp.success != 0 && resp.match_index
            >= g.pending[from].sent_last_index.0 ==> {
            &&& resp.match_index < g.last_index.0 ==> r == Ok::<Option<PeerId>, RaftError>(
                Some(from),
            ) && g_after == g
            &&& resp.match_index >= g.last_index.0 ==> {
                &&& r == Ok::<Option<PeerId>, RaftError>(None)
                &&& g_after.pending == g.pending.remove(from)
                &&& m.peers.contains(from) ==> g_after.accepted == g.accepted + 1
            }
        },
        resp.success == 0 || resp.term > m.hard.current_term.0 ==> g_after == g,
{
}

/// However the acks come in, they stay counted right.
pub proof fn law_acks_stay_counted_right(
    m: NodeModel,
    stored: StorageModel,
    g: GatherModel,
    from: PeerId,
    resp: AppendEntriesResp,
    r: Result<Option<PeerId>, RaftError>,
    after: NodeModel,
    stored_after: StorageModel,
    g_after: GatherModel,
)
    requires
        counted_right(m, g),
        ack_outcome(m, stored, g, from, resp, r, after, stored_after, g_after),
    ensures
        counted_right(after, g_after),
{
    let was = holders(m, g);
    let is = holders(after, g_after);
    lemma_holders_finite(m, g);
    lemma_holders_finite(after, g_after);
    if resp.term <= m.hard.current_term.0 {
        assert(was.subset_of(is));
        vstd::set_lib::lemma_len_subset(was, is);
        if g_after.accepted > g.accepted {
            assert(!was.contains(from));
            assert(is.contains(from));
            assert(was.insert(from).subset_of(is));
            vstd::set_lib::lemma_len_subset(was.insert(from), is);
        }
    }
}

/// A gathering begins with the leader's own copy counted and everyone that the batch
/// went out to awaited, and it needs more than half of the voters and no more than
/// that.
pub proof fn law_gatherings_start_counted_right(
    m: NodeModel,
    last_index: LogIndex,
    sent: Seq<PeerId>,
)
    requires
        !sent.contains(m.node_id),
    ensures
        ({
            let g = opened_gather(m, last_index, sent);
            &&& counted_right(m, g)
            &&& g.accepted == 1
            &&& g.last_index == last_index
            &&& g.term == m.hard.current_term
            &&& 2 * g.needed > m.peers.len()
            &&& 2 * (g.needed - 1) <= m.peers.len()
            &&& forall|p: PeerId| #[trigger] g.pending.dom().contains(p) <==> sent.contains(p)
            &&& forall|p: PeerId| #[trigger]
                sent.contains(p) ==> g.pending[p].sent_last_index == last_index
                    && g.pending[p].attempts == 1
        }),
{
}

/// Those of distinct peers that have a property are distinct, and no more than all.
proof fn lemma_filter_keeps_distinct(peers: Seq<PeerId>, has: spec_fn(PeerId) -> bool)
    requires
        peers.no_duplicates(),
    ensures
        peers.filter(has).no_duplicates(),
        forall|p: PeerId| #[trigger] peers.filter(has).contains(p) <==> peers.contains(p) && has(p),
    decreases peers.len(),
{
    reveal(Seq::filter);
    if peers.len() > 0 {
        let front = peers.drop_last();
        let last = peers.last();
        let rest = front.filter(has);
        let all = peers.filter(has);
        lemma_filter_keeps_distinct(front, has);
        assert(!front.contains(last)) by {
            if front.contains(last) {
                let i = choose|i: int| 0 <= i < front.len() && front[i] == last;
                assert(peers[i] == peers[peers.len() - 1]);
            }
        }
        assert forall|p: PeerId| #[trigger] peers.contains(p) <==> front.contains(p) || p == last by {
            if front.contains(p) {
                let i = choose|i: int| 0 <= i < front.len() && front[i] == p;
                assert(peers[i] == p);
            }
            if peers.contains(p) && p != last {
                let i = choose|i: int| 0 <= i < peers.len() && peers[i] == p;
                assert(front[i] == p);
            }
            assert(peers[peers.len() - 1] == last);
        }
        assert forall|p: PeerId| #[trigger] all.contains(p) <==> rest.contains(p) || (p == last
            && has(last)) by {
            if has(last) {
                assert(all =~= rest.push(last));
                assert(all[rest.len() as int] == last);
            }
            if rest.contains(p) {
                let i = choose|i: int| 0 <= i < rest.len() && rest[i] == p;
                assert(all[i] == p);
            }
            if all.contains(p) {
                let i = choose|i: int| 0 <= i < all.len() && all[i] == p;
                if i < rest.len() {
                    assert(rest[i] == p);
                }
            }
        }
        if has(last) {
            assert(all =~= rest.push(last));
            assert(!rest.contains(last));
        }
    }
}

/// A proposal that is reported committed is committed, and what its end commits is
/// held by more than half of the voters. Enough acks commit it; without them the report
/// says that there was no quorum.
pub proof fn law_finished_proposals_are_held_by_a_majority<S: RaftStorage>(
    m: NodeModel,
    stored: StorageModel,
    g: GatherModel,
    r: Result<(), RaftError>,
    after: NodeModel,
)
    requires
        finish_outcome::<S>(m, stored, g, r, after),
        counted_right(m, g),
        2 * g.needed > m.peers.len(),
        g.last_index.0 <= m.last_log.0.0,
        m.hard.current_term.0 > 0,
        m.joint is None ==> m.peers.no_duplicates() && m.peers.contains(m.node_id),
    ensures
        r is Ok ==> after.soft.commit_index.0 >= g.last_index.0,
        r == Err::<(), RaftError>(RaftError::NoQuorum) && !S::fails_with(RaftError::NoQuorum)
            ==> after.soft.commit_index.0 < g.last_index.0,
        after.soft.commit_index.0 >= m.soft.commit_index.0,
        after.soft.commit_index != m.soft.commit_index ==> held_by_majority(
            m,
            after.soft.commit_index.0,
        ),
        m.leads() && m.hard.current_term == g.term && m.joint is None && g.accepted >= g.needed
            ==> r is Ok,
{
    let fast = m.joint is None && m.leads() && m.hard.current_term == g.term && g.accepted
        >= g.needed;
    if fast {
        if after.soft.commit_index != m.soft.commit_index {
            let has = |p: PeerId| has_index(m, p, g.last_index.0);
            let all = m.peers.filter(has);
            let who = holders(m, g);
            lemma_filter_keeps_distinct(m.peers, has);
            lemma_holders_finite(m, g);
            all.unique_seq_to_set();
            vstd::seq_lib::seq_to_set_is_finite(all);
            assert(has(m.node_id));
            assert forall|p: PeerId| who.insert(m.node_id).contains(p) implies all.to_set().contains(
                p,
            ) by {
                assert(has(p));
                assert(all.contains(p));
            }
            vstd::set_lib::lemma_len_subset(who.insert(m.node_id), all.to_set());
            assert(more_than_half(m.peers, has));
        }
    } else {
        let q = choose|q: Result<(), RaftError>| #[trigger]
            commit_outcome(m, stored, q, after) && (q is Ok ==> r
                == if after.soft.commit_index.0 < g.last_index.0 {
                Err::<(), RaftError>(RaftError::NoQuorum)
            } else {
                Ok::<(), RaftError>(())
            }) && (q matches Err(e) ==> r == Err::<(), RaftError>(e) && S::fails_with(e));
        law_commits_are_held_by_a_majority(m, stored, q, after);
    }
}

/// The wait for a proposal's acks is over once enough were counted, or, while a
/// transition is under way, once more than half of either voter set has the whole of
/// it.
pub proof fn law_waits_end_with_the_majority(node: RaftNode, g: GatherModel)
    requires
        g.last_index.0 > 0,
    ensures
        node@.joint is None ==> (node.gather_reached(g) <==> g.accepted >= g.needed),
        node@.joint is Some ==> (node.gather_reached(g) <==> held_by_majority(
            node@,
            g.last_index.0,
        )),
{
    match node@.joint {
        Some((old_peers, new_peers)) => {
            lemma_subset_quorum(node@, old_peers, g.last_index.0);
            lemma_subset_quorum(node@, new_peers, g.last_index.0);
        },
        None => {},
    }
}

} // verus!
