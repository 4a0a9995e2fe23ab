//! What every node keeps, whatever arrives.

use vstd::prelude::*;

use super::generational::ArenaModel;
use super::inbound::{inbound_outcome, InboundAction};
use super::membership::{
    config_change_outcome, empties_the_cluster, merged, outside, with_learners, ConfigChange,
    ConfigChangePhase,
};
use super::progress::AppendAttemptState;
use super::raft_node::NodeModel;
use super::replication::handler::{
    already_there, append_outcome, arena_with, first_new, latest_config, local_term, reject_hint,
};
use super::replication::propose::proposed;
use super::replication::response::before;
use super::replication::shared::{commit_outcome, is_backlog};
use super::snapshot_laws::law_installs_keep_promises;
use crate::entry::EntryRecord;
use crate::error::RaftError;
use crate::protocol::codec::wire::{AppendEntries, AppendEntriesResp, RequestVote};
use crate::protocol::message::RaftMessage;
use crate::state::{Role, SnapshotMeta};
use crate::traits::{is_from_log, log_before, log_with, tip_with, StorageModel};
use crate::types::{LogIndex, PeerId, Term};

verus! {

/// Those left of `members` are members, and none of them is in `gone`.
pub proof fn lemma_outside(members: Seq<PeerId>, gone: Seq<PeerId>, p: PeerId)
    ensures
        outside(members, gone).contains(p) <==> members.contains(p) && !gone.contains(p),
    decreases members.len(),
{
    reveal(Seq::filter);
    let left = outside(members, gone);
    if members.len() > 0 {
        let front = members.drop_last();
        let rest = outside(front, gone);
        lemma_outside(front, gone, p);
        if left.contains(p) {
            let i = choose|i: int| 0 <= i < left.len() && left[i] == p;
            if i < rest.len() {
                assert(rest[i] == p);
                assert(rest.contains(p));
                let j = choose|j: int| 0 <= j < front.len() && front[j] == p;
                assert(members[j] == p);
            } else {
                assert(members[members.len() - 1] == p);
            }
        }
        if members.contains(p) && !gone.contains(p) {
            let j = choose|j: int| 0 <= j < members.len() && members[j] == p;
            if j < front.len() {
                assert(front[j] == p);
                assert(front.contains(p));
                let i = choose|i: int| 0 <= i < rest.len() && rest[i] == p;
                assert(left[i] == p);
            } else {
                assert(left[left.len() - 1] == p);
            }
        }
    }
}

/// The union of two voter sets holds exactly the members of either.
pub proof fn law_union_holds_both(base: Seq<PeerId>, more: Seq<PeerId>, p: PeerId)
    ensures
        merged(base, more).contains(p) <==> base.contains(p) || more.contains(p),
    decreases more.len(),
{
    if more.len() > 0 {
        let front = merged(base, more.drop_last());
        law_union_holds_both(base, more.drop_last(), p);
        let all = merged(base, more);
        if all.contains(p) {
            let i = choose|i: int| 0 <= i < all.len() && all[i] == p;
            if i < front.len() {
                assert(front[i] == p);
                assert(front.contains(p));
                if more.drop_last().contains(p) {
                    let j = choose|j: int| 0 <= j < more.drop_last().len() && more.drop_last()[j]
                        == p;
                    assert(more[j] == p);
                }
            } else {
                assert(more[more.len() - 1] == p);
            }
        }
        if front.contains(p) {
            let i = choose|i: int| 0 <= i < front.len() && front[i] == p;
            assert(all[i] == p);
        }
        if more.contains(p) {
            let j = choose|j: int| 0 <= j < more.len() && more[j] == p;
            if j < more.len() - 1 {
                assert(more.drop_last()[j] == p);
            } else if !front.contains(p) {
                assert(all[all.len() - 1] == p);
            }
        }
    }
}

/// Added learners are not voters, and the earlier ones stay.
proof fn lemma_with_learners(
    peers: Seq<PeerId>,
    learners: Seq<PeerId>,
    more: Seq<PeerId>,
    p: PeerId,
)
    ensures
        with_learners(peers, learners, more).contains(p) <==> learners.contains(p) || (
        more.contains(p) && !peers.contains(p)),
    decreases more.len(),
{
    if more.len() > 0 {
        let front = with_learners(peers, learners, more.drop_last());
        lemma_with_learners(peers, learners, more.drop_last(), p);
        let all = with_learners(peers, learners, more);
        if all.contains(p) {
            let i = choose|i: int| 0 <= i < all.len() && all[i] == p;
            if i < front.len() {
                assert(front[i] == p);
                assert(front.contains(p));
                if more.drop_last().contains(p) {
                    let j = choose|j: int| 0 <= j < more.drop_last().len() && more.drop_last()[j]
                        == p;
                    assert(more[j] == p);
                }
            } else {
                assert(more[more.len() - 1] == p);
            }
        }
        if front.contains(p) {
            let i = choose|i: int| 0 <= i < front.len() && front[i] == p;
            assert(all[i] == p);
        }
        if more.contains(p) {
            let j = choose|j: int| 0 <= j < more.len() && more[j] == p;
            if j < more.len() - 1 {
                assert(more.drop_last()[j] == p);
            } else if !front.contains(p) && !peers.contains(p) {
                assert(all[all.len() - 1] == p);
            }
        }
    }
}

/// A membership change never makes anybody both voter and learner, and it
/// leaves terms, votes, the commit index and the log alone.
pub proof fn law_changes_keep_roles_apart(m: NodeModel, c: ConfigChange)
    requires
        m.wf(),
    ensures
        m.changed(c).wf(),
        m.changed(c).hard == m.hard,
        m.changed(c).soft == m.soft,
        m.changed(c).last_log == m.last_log,
{
    let n = m.reconfigured(c);
    assert forall|p: PeerId| #[trigger] n.peers.contains(p) implies !n.learners.contains(p) by {
        match c.phase {
            ConfigChangePhase::Joint => {
                lemma_outside(m.learners, merged(c.old_peers, c.new_peers), p);
            },
            ConfigChangePhase::Final => {
                lemma_outside(m.learners, c.new_peers, p);
            },
            ConfigChangePhase::AddLearner => {
                lemma_with_learners(m.peers, m.learners, c.new_peers, p);
            },
            ConfigChangePhase::RemoveLearner => {
                lemma_outside(m.learners, c.new_peers, p);
            },
        }
    }
}

/// What each kind of membership change does to the membership: a transition
/// votes with both sets, its end with the new one, and a learner comes or goes
/// without touching the voters. Applying the same change again changes nothing
/// more.
pub proof fn law_changes_do_what_they_say(m: NodeModel, c: ConfigChange, p: PeerId)
    requires
        !empties_the_cluster(c),
    ensures
        ({
            let n = m.changed(c);
            match c.phase {
                ConfigChangePhase::Joint => {
                    &&& n.peers.contains(p) <==> c.old_peers.contains(p) || c.new_peers.contains(p)
                    &&& n.joint == Some((c.old_peers, c.new_peers))
                    &&& n.learners.contains(p) <==> m.learners.contains(p) && !n.peers.contains(p)
                },
                ConfigChangePhase::Final => {
                    &&& n.peers == c.new_peers
                    &&& n.joint is None
                    &&& n.learners.contains(p) <==> m.learners.contains(p) && !n.peers.contains(p)
                },
                ConfigChangePhase::AddLearner => {
                    &&& n.peers == m.peers
                    &&& n.joint == m.joint
                    &&& n.learners.contains(p) <==> m.learners.contains(p) || (
                    c.new_peers.contains(p) && !m.peers.contains(p))
                },
                ConfigChangePhase::RemoveLearner => {
                    &&& n.peers == m.peers
                    &&& n.joint == m.joint
                    &&& n.learners.contains(p) <==> m.learners.contains(p)
                        && !c.new_peers.contains(p)
                },
            }
        }),
        m.changed(c).changed(c).peers.contains(p) == m.changed(c).peers.contains(p),
        m.changed(c).changed(c).learners.contains(p) == m.changed(c).learners.contains(p),
{
    let n = m.changed(c);
    match c.phase {
        ConfigChangePhase::Joint => {
            law_union_holds_both(c.old_peers, c.new_peers, p);
            lemma_outside(m.learners, merged(c.old_peers, c.new_peers), p);
            lemma_outside(n.learners, merged(c.old_peers, c.new_peers), p);
        },
        ConfigChangePhase::Final => {
            lemma_outside(m.learners, c.new_peers, p);
            lemma_outside(n.learners, c.new_peers, p);
        },
        ConfigChangePhase::AddLearner => {
            lemma_with_learners(m.peers, m.learners, c.new_peers, p);
            lemma_with_learners(n.peers, n.learners, c.new_peers, p);
        },
        ConfigChangePhase::RemoveLearner => {
            lemma_outside(m.learners, c.new_peers, p);
            lemma_outside(n.learners, c.new_peers, p);
        },
    }
}

/// A leader replicates to exactly the other members after a change, and those
/// who stay keep their progress.
pub proof fn law_leaders_track_the_members(m: NodeModel, c: ConfigChange, p: PeerId)
    requires
        m.leads(),
        !m.progress.dom().contains(m.node_id),
    ensures
        m.changed(c).progress.dom().contains(p) <==> m.changed(c).other_member(p),
        m.changed(c).other_member(p) && m.progress.dom().contains(p) ==> m.changed(c).progress[p]
            == m.progress[p],
{
}

/// Whether an entry batch is what a leader sends after `prev`: each entry has
/// the index that follows.
pub open spec fn follows(prev: u64, entries: Seq<EntryRecord>) -> bool {
    &&& prev + entries.len() < u64::MAX
    &&& forall|k: int|
        0 <= k < entries.len() ==> (#[trigger] entries[k]).index.0 == prev + 1 + k
}

/// Everything before the first new entry is already there.
pub(crate) proof fn lemma_before_first_new(
    m: NodeModel,
    stored: StorageModel,
    prev: u64,
    entries: Seq<EntryRecord>,
    k: int,
)
    requires
        0 <= k <= entries.len(),
    ensures
        k <= first_new(m, stored, prev, entries, k) <= entries.len(),
        forall|j: int|
            k <= j < first_new(m, stored, prev, entries, k) ==> already_there(
                m,
                stored,
                prev,
                entries,
                j,
            ),
    decreases entries.len() - k,
{
    if k < entries.len() && already_there(m, stored, prev, entries, k) {
        lemma_before_first_new(m, stored, prev, entries, k + 1);
    }
}

/// What a log holds once entries with consecutive indices are written into it.
pub(crate) proof fn lemma_log_with(
    log: Map<int, EntryRecord>,
    entries: Seq<EntryRecord>,
    start: int,
    i: int,
)
    requires
        forall|k: int| 0 <= k < entries.len() ==> (#[trigger] entries[k]).index.0 == start + k,
    ensures
        start <= i < start + entries.len() ==> log_with(log, entries).dom().contains(i)
            && log_with(log, entries)[i] == entries[i - start],
        !(start <= i < start + entries.len()) ==> log_with(log, entries).dom().contains(i)
            == log.dom().contains(i) && log_with(log, entries)[i] == log[i],
    decreases entries.len(),
{
    if entries.len() > 0 {
        let front = entries.drop_last();
        assert forall|k: int| 0 <= k < front.len() implies (#[trigger] front[k]).index.0 == start
            + k by {
            assert(front[k] == entries[k]);
        }
        lemma_log_with(log, front, start, i);
        assert(entries.last() == entries[entries.len() - 1]);
    }
}

/// What an arena remembers of entries with consecutive indices: their terms, or
/// what it knew before.
proof fn lemma_arena_with(arena: ArenaModel, entries: Seq<EntryRecord>, start: int, i: int)
    requires
        forall|k: int| 0 <= k < entries.len() ==> (#[trigger] entries[k]).index.0 == start + k,
        arena.lookup(start) is None || entries.len() == 0,
        arena.terms.len() <= arena.capacity,
    ensures
        ({
            let found = arena_with(arena, entries).lookup(i);
            found is Some ==> if start <= i < start + entries.len() {
                found == Some(entries[i - start].term)
            } else {
                found == arena.lookup(i)
            }
        }),
        arena.capacity > 0 && entries.len() > 0 ==> {
            let grown = arena_with(arena, entries);
            &&& grown.terms.len() > 0
            &&& grown.base + grown.terms.len() == start + entries.len()
        },
        arena_with(arena, entries).capacity == arena.capacity,
        arena_with(arena, entries).terms.len() <= arena.capacity,
    decreases entries.len(),
{
    if entries.len() > 0 {
        let front = entries.drop_last();
        assert forall|k: int| 0 <= k < front.len() implies (#[trigger] front[k]).index.0 == start
            + k by {
            assert(front[k] == entries[k]);
        }
        lemma_arena_with(arena, front, start, i);
        assert(entries.last() == entries[entries.len() - 1]);
    }
}

/// An accepted batch is in the log: afterwards the log holds every entry of it
/// with the leader's term, everything up to the entry before the batch is as it
/// was, and what the node remembers is what its log holds.
pub proof fn law_accepted_batches_are_in_the_log(
    m: NodeModel,
    stored: StorageModel,
    prev: u64,
    entries: Seq<EntryRecord>,
    stored_after: StorageModel,
)
    requires
        follows(prev, entries),
        m.remembers(stored),
        m.arena.terms.len() <= m.arena.capacity,
        stored_after.log == m.extended_log(stored, prev, entries),
    ensures
        forall|k: int|
            0 <= k < entries.len() ==> stored_after.term_of(
                (#[trigger] entries[k]).index.0 as int,
            ) == Some(entries[k].term),
        forall|i: int|
            i <= prev ==> #[trigger] stored_after.log.dom().contains(i)
                == stored.log.dom().contains(i),
        forall|i: int|
            i <= prev && stored.log.dom().contains(i) ==> #[trigger] stored_after.log[i]
                == stored.log[i],
        m.extended(stored, prev, entries).remembers(stored_after),
{
    let f = first_new(m, stored, prev, entries, 0);
    lemma_before_first_new(m, stored, prev, entries, 0);
    assert forall|k: int| 0 <= k < f implies stored.term_of((#[trigger] entries[k]).index.0 as int)
        == Some(entries[k].term) by {
        assert(already_there(m, stored, prev, entries, k));
        let at = entries[k].index.0 as int;
        assert(local_term(m, stored, at) == Some(entries[k].term));
        if m.arena.lookup(at) is Some {
        }
    }
    if f < entries.len() {
        let fresh = entries.skip(f);
        let start = entries[f].index.0 as int;
        let conflict = m.conflicts(stored, prev, entries);
        let cut = if conflict {
            log_before(stored.log, start)
        } else {
            stored.log
        };
        let arena = if conflict {
            m.arena.truncated(entries[f].index.0)
        } else {
            m.arena
        };
        assert forall|k: int| 0 <= k < fresh.len() implies (#[trigger] fresh[k]).index.0 == start
            + k by {
            assert(fresh[k] == entries[f + k]);
        }
        assert forall|k: int| 0 <= k < entries.len() implies stored_after.term_of(
            (#[trigger] entries[k]).index.0 as int,
        ) == Some(entries[k].term) by {
            lemma_log_with(cut, fresh, start, entries[k].index.0 as int);
            if k >= f {
                assert(fresh[k - f] == entries[k]);
            }
        }
        assert forall|i: int| i <= prev implies #[trigger] stored_after.log.dom().contains(i)
            == stored.log.dom().contains(i) by {
            lemma_log_with(cut, fresh, start, i);
        }
        assert forall|i: int| i <= prev && stored.log.dom().contains(i) implies #[trigger]
            stored_after.log[i] == stored.log[i] by {
            lemma_log_with(cut, fresh, start, i);
        }
        let grown = m.extended(stored, prev, entries);
        assert(grown.arena == arena_with(arena, fresh));
        let terms = |i: int| stored_after.term_of(i);
        assert forall|i: int| #[trigger] grown.arena.lookup(i) is Some implies grown.arena.lookup(i)
            == terms(i) by {
            lemma_arena_with(arena, fresh, start, i);
            lemma_log_with(cut, fresh, start, i);
            if start <= i < start + fresh.len() {
                assert(fresh[i - start].term == stored_after.log[i].term);
            } else {
                assert(arena.lookup(i) == grown.arena.lookup(i));
                assert(m.arena.lookup(i) is Some);
            }
        }
    } else {
        let terms = |i: int| stored_after.term_of(i);
        assert forall|i: int| #[trigger] m.arena.lookup(i) is Some implies m.arena.lookup(i)
            == terms(i) by {
        }
    }
}

/// An append request, answered or failed, never takes back a term or a commit,
/// and it keeps the node well formed.
proof fn lemma_appends_keep_promises(
    before: NodeModel,
    stored: StorageModel,
    msg: AppendEntries,
    entries: Seq<EntryRecord>,
    now_ms: u64,
    r: Result<AppendEntriesResp, RaftError>,
    after: NodeModel,
    stored_after: StorageModel,
)
    requires
        append_outcome(before, stored, msg, entries, now_ms, r, after, stored_after),
    ensures
        after.hard.current_term.0 >= before.hard.current_term.0,
        after.soft.commit_index.0 >= before.soft.commit_index.0,
        after.last_applied == before.last_applied,
        before.wf() ==> after.wf(),
{
    if msg.term >= before.hard.current_term.0 {
        let m = before.following(msg, now_ms);
        let base = if msg.term > before.hard.current_term.0 {
            super::raft_node::saved(stored, m.hard)
        } else {
            stored
        };
        if r is Ok && m.agrees_at(base, msg.prev_log_index, msg.prev_log_term) && before.wf() {
            let f = first_new(m, base, msg.prev_log_index, entries, 0);
            if f < entries.len() {
                let fresh = entries.skip(f);
                let arena = if m.conflicts(base, msg.prev_log_index, entries) {
                    m.arena.truncated(entries[f].index.0)
                } else {
                    m.arena
                };
                let grown = NodeModel {
                    arena: arena_with(arena, fresh),
                    last_log: (fresh.last().index, fresh.last().term),
                    ..m
                };
                if latest_config(fresh) is Some {
                    law_changes_keep_roles_apart(grown, latest_config(fresh)->0);
                }
            }
        }
    }
}

/// Whatever arrives, a node never takes back a term or a commit, applies
/// nothing on its own, and stays well formed.
pub proof fn law_inbound_keeps_promises(
    node: NodeModel,
    stored: StorageModel,
    from: PeerId,
    msg: RaftMessage<'_>,
    now_ms: u64,
    action: InboundAction<'_>,
    r: Result<(), RaftError>,
    after: NodeModel,
    stored_after: StorageModel,
)
    requires
        inbound_outcome(node, stored, from, msg, now_ms, action, r, after, stored_after),
    ensures
        after.hard.current_term.0 >= node.hard.current_term.0,
        after.soft.commit_index.0 >= node.soft.commit_index.0,
        after.last_applied == node.last_applied,
        node.wf() ==> after.wf(),
{
    let before = node.heard(from, msg, now_ms);
    match msg {
        RaftMessage::AppendEntries(ae, payload) => {
            let entries = crate::protocol::message::entries_in(
                payload@,
                ae.entry_count as nat,
            );
            lemma_appends_keep_promises(
                before,
                stored,
                ae,
                entries,
                now_ms,
                match r {
                    Ok(()) => Ok(action->Append_0),
                    Err(e) => Err(e),
                },
                after,
                stored_after,
            );
        },
        RaftMessage::AppendEntriesSeeded { ae, headers, payloads } => {
            let entries = super::replication::handler::seeded_entries(
                headers@,
                payloads@,
                ae.entry_count as nat,
            );
            lemma_appends_keep_promises(
                before,
                stored,
                ae,
                entries,
                now_ms,
                match r {
                    Ok(()) => Ok(action->Append_0),
                    Err(e) => Err(e),
                },
                after,
                stored_after,
            );
        },
        RaftMessage::InstallSnapshot(chunk, payload) => {
            law_installs_keep_promises(
                before,
                stored,
                from,
                chunk,
                payload@,
                now_ms,
                match action {
                    InboundAction::Snapshot(resp) => Some(resp),
                    _ => None,
                },
                r,
                after,
                stored_after,
            );
        },
        _ => {},
    }
}

/// What a leader sends a follower from its log, the follower ends up with: once
/// it has accepted the batch, its log agrees with the leader's at every index of
/// it.
pub proof fn law_sent_entries_arrive(
    leader_log: Map<int, EntryRecord>,
    next: u64,
    limit: nat,
    sent: Seq<EntryRecord>,
    m: NodeModel,
    stored: StorageModel,
    stored_after: StorageModel,
)
    requires
        next > 0,
        next + sent.len() <= u64::MAX,
        is_backlog(leader_log, next as int, limit, sent),
        m.remembers(stored),
        m.arena.terms.len() <= m.arena.capacity,
        stored_after.log == m.extended_log(stored, before(next), sent),
    ensures
        forall|i: int|
            next <= i < next + sent.len() ==> #[trigger] stored_after.term_of(i) == Some(
                leader_log[i].term,
            ),
{
    let prev = before(next);
    assert forall|k: int| 0 <= k < sent.len() implies (#[trigger] sent[k]).index.0 == prev + 1
        + k by {
        assert(is_from_log(leader_log, next as int, sent, k));
    }
    law_accepted_batches_are_in_the_log(m, stored, prev, sent, stored_after);
    assert forall|i: int| next <= i < next + sent.len() implies #[trigger] stored_after.term_of(i)
        == Some(leader_log[i].term) by {
        assert(is_from_log(leader_log, next as int, sent, i - next));
        assert(sent[i - next].index.0 == i);
    }
}

/// Whatever a node decides on its own account, it stays well formed: an election
/// begun or won, a vote, a proposal, an answer, a commit, a transfer, a read, a
/// compaction, and a snapshot streamed or restored.
pub proof fn law_decisions_keep_nodes_well_formed(m: NodeModel, now_ms: u64)
    requires
        m.wf(),
    ensures
        m.campaigning().wf(),
        m.crowned(now_ms).wf(),
        m.window_checked(now_ms).wf(),
        m.with_progress_started(now_ms).wf(),
        m.swept(now_ms).wf(),
        forall|tip: (LogIndex, Term), msg: RequestVote| #[trigger]
            m.asked_for_vote(tip, msg).wf(),
        forall|term: Term| #[trigger] m.stepped_down(term).wf(),
        forall|term: Term| #[trigger] m.at_term(term).wf(),
        forall|entries: Seq<EntryRecord>| #[trigger] m.with_proposed(entries).wf(),
        forall|from: PeerId, resp: AppendEntriesResp| #[trigger] m.acked_by(from, resp).wf(),
        forall|from: PeerId, target: u64, state: AppendAttemptState, resp: AppendEntriesResp|
            #[trigger] m.advanced(from, target, state, resp).wf(),
        forall|from: PeerId, term: u64| #[trigger] m.sanctioned(from, term).wf(),
        forall|index: u64, term: Term| #[trigger] m.remembering(index, term).wf(),
        forall|peer: PeerId| #[trigger] m.install_weighed(peer, now_ms).wf(),
        forall|peer: PeerId, at: LogIndex| #[trigger] m.reanchored(peer, at).wf(),
        forall|meta: SnapshotMeta, tip: (LogIndex, Term)| #[trigger]
            m.restored(meta, tip).wf(),
        forall|meta: SnapshotMeta| #[trigger] m.compacted(meta).wf(),
        forall|stored: StorageModel, r: Result<(), RaftError>, after: NodeModel| #[trigger]
            commit_outcome(m, stored, r, after) ==> after.wf(),
{
}

/// A refusal points below the entry that was asked about and no further than
/// the follower's own log, so a leader that follows the hints finds the place
/// where the logs agree.
pub proof fn law_refusals_point_back(m: NodeModel, prev: u64)
    requires
        prev > 0,
    ensures
        reject_hint(m, prev) < prev,
        reject_hint(m, prev) <= m.last_log.0.0,
{
}

/// The tip that a node remembers keeps up with its storage: a proposal and a batch
/// that extend both leave them equal, and what is sent of a proposal just appended
/// follows the entry before it.
pub proof fn law_cached_tips_keep_up(
    m: NodeModel,
    stored: StorageModel,
    payloads: Seq<&[u8]>,
    prev: u64,
    entries: Seq<EntryRecord>,
)
    requires
        m.last_log == stored.tip,
        m.last_log.0.0 + payloads.len() < u64::MAX,
    ensures
        payloads.len() > 0 ==> {
            let tip = tip_with(stored.tip, proposed(m, payloads));
            &&& m.with_proposed(proposed(m, payloads)).last_log == tip
            &&& tip.0.0 - payloads.len() == m.last_log.0.0
        },
        m.extended(stored, prev, entries).last_log == m.extended_storage(
            stored,
            prev,
            entries,
        ).tip,
{
    lemma_before_first_new(m, stored, prev, entries, 0);
}

/// A membership change takes effect as it says, and leaves the log and the commit index
/// alone. One that leaves no voter is refused and changes no member. A leader that it
/// takes out of the voters gives way, at its own term; one that stays goes on leading,
/// keeps the progress of the members that stay, starts new ones afresh and forgets the
/// others.
pub proof fn law_membership_changes_take_effect(
    before: NodeModel,
    stored: StorageModel,
    c: ConfigChange,
    r: Result<(), RaftError>,
    after: NodeModel,
    stored_after: StorageModel,
    p: PeerId,
)
    requires
        config_change_outcome(before, stored, c, r, after, stored_after),
        !before.progress.dom().contains(before.node_id),
    ensures
        ({
            let void = c.phase == ConfigChangePhase::Final && c.new_peers.len() == 0;
            let votes = after.peers.contains(before.node_id);
            let led = before.soft.role == Role::Leader;
            &&& void ==> r is Err && after.peers == before.peers && after.learners
                == before.learners && after.joint == before.joint && after.soft == before.soft
            &&& !void && c.phase == ConfigChangePhase::Joint ==> {
                &&& after.peers.contains(p) <==> c.old_peers.contains(p) || c.new_peers.contains(p)
                &&& after.joint == Some((c.old_peers, c.new_peers))
                &&& after.learners.contains(p) <==> before.learners.contains(p)
                    && !c.old_peers.contains(p) && !c.new_peers.contains(p)
            }
            &&& !void && c.phase == ConfigChangePhase::Final ==> {
                &&& after.peers == c.new_peers
                &&& after.joint is None
                &&& after.learners.contains(p) <==> before.learners.contains(p)
                    && !c.new_peers.contains(p)
            }
            &&& c.phase == ConfigChangePhase::AddLearner ==> {
                &&& after.peers == before.peers && after.joint == before.joint
                &&& after.learners.contains(p) <==> before.learners.contains(p) || (
                c.new_peers.contains(p) && !before.peers.contains(p))
            }
            &&& c.phase == ConfigChangePhase::RemoveLearner ==> {
                &&& after.peers == before.peers && after.joint == before.joint
                &&& after.learners.contains(p) <==> before.learners.contains(p)
                    && !c.new_peers.contains(p)
            }
            &&& !void && (!led || votes) ==> r is Ok && after.soft == before.soft && after.hard
                == before.hard && stored_after == stored
            &&& !void && led && !votes && r is Ok ==> after.soft.role == Role::Follower
                && !after.soft.is_leader && after.hard.current_term == before.hard.current_term
            &&& !void && led && votes ==> {
                let member = p != before.node_id && (after.peers.contains(p)
                    || after.learners.contains(p));
                &&& after.progress.dom().contains(p) <==> member
                &&& member && before.progress.dom().contains(p) ==> after.progress[p]
                    == before.progress[p]
                &&& member && !before.progress.dom().contains(p) ==> after.progress[
                    p
                ].match_index.0 == 0 && (before.last_log.0.0 < u64::MAX ==> after.progress[
                    p
                ].next_index.0 == before.last_log.0.0 + 1)
            }
            &&& after.soft.commit_index == before.soft.commit_index
            &&& after.last_log == before.last_log
            &&& after.last_applied == before.last_applied
            &&& stored_after.log == stored.log || r is Err
        }),
{
    if !empties_the_cluster(c) {
        law_changes_do_what_they_say(before, c, p);
    }
}

/// A leader whose members have changed under it, because a change took effect or was taken
/// back, replicates to exactly the other members: those that stay keep their progress, and
/// new ones start at the end of the log, with nothing known of them. Of those that left
/// nothing is kept; of the others everything is.
pub proof fn law_bookkeeping_follows_the_members(m: NodeModel, p: PeerId)
    requires
        m.soft.role == Role::Leader,
        !m.progress.dom().contains(m.node_id),
    ensures
        ({
            let n = m.reconciled();
            &&& n.peers == m.peers && n.learners == m.learners && n.joint == m.joint
            &&& n.progress.dom().contains(p) <==> p != m.node_id && (m.peers.contains(p)
                || m.learners.contains(p))
            &&& n.progress.dom().contains(p) && m.progress.dom().contains(p) ==> n.progress[p]
                == m.progress[p]
            &&& n.progress.dom().contains(p) && !m.progress.dom().contains(p) ==> {
                &&& n.progress[p].match_index.0 == 0
                &&& m.last_log.0.0 < u64::MAX ==> n.progress[p].next_index.0 == m.last_log.0.0 + 1
            }
            &&& m.peers.contains(p) || m.learners.contains(p) || !m.progress.dom().contains(p) ==> {
                &&& n.pending.dom().contains(p) <==> m.pending.dom().contains(p)
                &&& m.pending.dom().contains(p) ==> n.pending[p] == m.pending[p]
                &&& n.contact.dom().contains(p) <==> m.contact.dom().contains(p)
                &&& m.contact.dom().contains(p) ==> n.contact[p] == m.contact[p]
            }
            &&& !m.peers.contains(p) && !m.learners.contains(p) && m.progress.dom().contains(p)
                ==> !n.pending.dom().contains(p) && !n.contact.dom().contains(p)
            &&& n.hard == m.hard && n.soft == m.soft && n.last_log == m.last_log
        }),
{
}

/// A union keeps the members of the first set where they stand, and nobody comes in twice;
/// the same holds of learners that are added.
pub proof fn law_members_are_added_once(
    base: Seq<PeerId>,
    more: Seq<PeerId>,
    peers: Seq<PeerId>,
    i: int,
)
    requires
        base.no_duplicates(),
    ensures
        merged(base, more).no_duplicates(),
        with_learners(peers, base, more).no_duplicates(),
        base.len() <= merged(base, more).len() <= base.len() + more.len(),
        base.len() <= with_learners(peers, base, more).len() <= base.len() + more.len(),
        0 <= i < base.len() ==> merged(base, more)[i] == base[i] && with_learners(
            peers,
            base,
            more,
        )[i] == base[i],
    decreases more.len(),
{
    if more.len() > 0 {
        law_members_are_added_once(base, more.drop_last(), peers, i);
    }
}

} // verus!
