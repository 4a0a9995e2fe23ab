//! What replication keeps between a leader's log and a follower's.

use vstd::prelude::*;

use super::handler::{
    already_there, append_outcome, first_new, latest_config, local_term, seeded_entries,
    seeded_entry,
};
use crate::entry::EntryRecord;
use crate::node::laws::{lemma_before_first_new, lemma_log_with};
use crate::node::membership::decode_config;
use crate::node::raft_node::{saved, NodeModel};
use crate::protocol::codec::layout::{eight_bytes, four_bytes, lemma_fields_are_numbers};
use crate::protocol::codec::le::{field, le_bytes, lemma_le_fields};
use crate::protocol::codec::wire::{AppendEntries, AppendEntriesResp};
use crate::protocol::message::seeded_total;
use crate::state::Role;
use crate::traits::StorageModel;
use crate::types::{LogIndex, PeerId, Term};

verus! {

/// A follower accepts a batch only where its own log has the leader's term at the
/// entry before it, and always where it has: the term that it remembers there, or
/// else the one that its storage holds, or else that of its tip or of its snapshot.
/// A refusal leaves the log and the commit index alone and points the leader below
/// the entry that it asked about.
pub proof fn law_batches_follow_a_shared_entry(
    before: NodeModel,
    stored: StorageModel,
    msg: AppendEntries,
    entries: Seq<EntryRecord>,
    now_ms: u64,
    resp: AppendEntriesResp,
    after: NodeModel,
    stored_after: StorageModel,
)
    requires
        append_outcome(before, stored, msg, entries, now_ms, Ok(resp), after, stored_after),
        msg.term >= before.hard.current_term.0,
        msg.prev_log_index > 0,
    ensures
        ({
            let at = msg.prev_log_index as int;
            let run = before.arena;
            let remembered = run.base <= at < run.base + run.terms.len();
            let asked = (LogIndex(msg.prev_log_index), Term(msg.prev_log_term));
            &&& remembered ==> (resp.success != 0 <==> run.terms[at - run.base] == asked.1)
            &&& !remembered && stored.log.dom().contains(at) ==> (resp.success != 0
                <==> stored.log[at].term == asked.1)
            &&& !remembered && !stored.log.dom().contains(at) ==> (resp.success != 0
                <==> before.last_log == asked || before.boundary == asked)
        }),
        resp.success == 0 ==> {
            &&& stored_after.log == stored.log
            &&& stored_after.tip == stored.tip
            &&& after.last_log == before.last_log
            &&& after.arena == before.arena
            &&& after.soft.commit_index == before.soft.commit_index
            &&& resp.match_index < msg.prev_log_index
            &&& resp.match_index <= before.last_log.0.0
            &&& resp.match_index + 1 == msg.prev_log_index || resp.match_index
                == before.last_log.0.0
        },
{
}

/// Whether two logs match: where they hold an entry of the same term at the same
/// index, they hold the same entries up to there.
pub open spec fn logs_match(a: Map<int, EntryRecord>, b: Map<int, EntryRecord>) -> bool {
    forall|i: int, j: int|
        #![trigger a.dom().contains(i), b.dom().contains(j)]
        j <= i && a.dom().contains(i) && b.dom().contains(i) && a[i].term == b[i].term
            && a.dom().contains(j) && b.dom().contains(j) ==> a[j] == b[j]
}

/// Whether a node remembers nothing but what its log holds.
pub open spec fn memory_is_true(m: NodeModel, log: Map<int, EntryRecord>) -> bool {
    &&& m.arena.terms.len() <= m.arena.capacity
    &&& forall|i: int|
        m.arena.base <= i < m.arena.base + m.arena.terms.len() ==> #[trigger] log.dom().contains(i)
            && log[i].term == m.arena.terms[i - m.arena.base]
}

/// Whether a batch after `prev` carries what the log holds at `i`.
pub open spec fn sent_at(
    log: Map<int, EntryRecord>,
    prev: int,
    entries: Seq<EntryRecord>,
    i: int,
) -> bool {
    &&& log.dom().contains(i)
    &&& entries[i - prev - 1] == log[i]
    &&& entries[i - prev - 1].index.0 == i
}

/// Whether a request carries what the leader's log holds after the entry that it
/// names, without a gap.
pub open spec fn sent_from(
    log: Map<int, EntryRecord>,
    msg: AppendEntries,
    entries: Seq<EntryRecord>,
) -> bool {
    let prev = msg.prev_log_index as int;
    &&& prev + entries.len() < u64::MAX
    &&& prev > 0 ==> log.dom().contains(prev) && log[prev].term.0 == msg.prev_log_term
    &&& forall|i: int| prev < i <= prev + entries.len() ==> #[trigger] sent_at(log, prev, entries, i)
}

/// Whether two logs hold the same at `i`: the same entry, or none.
pub open spec fn same_at(a: Map<int, EntryRecord>, b: Map<int, EntryRecord>, i: int) -> bool {
    a.dom().contains(i) == b.dom().contains(i) && (a.dom().contains(i) ==> a[i] == b[i])
}

/// What an accepted batch does to a log, in terms of the log alone.
proof fn lemma_accepted_log(
    before: NodeModel,
    stored: StorageModel,
    msg: AppendEntries,
    entries: Seq<EntryRecord>,
    now_ms: u64,
    resp: AppendEntriesResp,
    after: NodeModel,
    stored_after: StorageModel,
) -> (f: int)
    requires
        append_outcome(before, stored, msg, entries, now_ms, Ok(resp), after, stored_after),
        resp.success != 0,
        memory_is_true(before, stored.log),
        msg.prev_log_index + entries.len() < u64::MAX,
        forall|k: int|
            0 <= k < entries.len() ==> (#[trigger] entries[k]).index.0 == msg.prev_log_index + 1
                + k,
    ensures
        0 <= f <= entries.len(),
        forall|i: int|
            msg.prev_log_index < i <= msg.prev_log_index + f ==> #[trigger]
                stored.log.dom().contains(i) && stored.log[i].term == entries[i
                - msg.prev_log_index - 1].term,
        f < entries.len() ==> !(stored.log.dom().contains(msg.prev_log_index + 1 + f)
            && stored.log[msg.prev_log_index + 1 + f].term == entries[f].term),
        f == entries.len() ==> stored_after.log == stored.log && after.last_log == before.last_log,
        f < entries.len() ==> after.last_log == (entries.last().index, entries.last().term),
        forall|i: int|
            msg.prev_log_index + f < i <= msg.prev_log_index + entries.len() ==> #[trigger]
                stored_after.log.dom().contains(i) && stored_after.log[i] == entries[i
                - msg.prev_log_index - 1],
        forall|i: int|
            i < msg.prev_log_index + 1 + f ==> same_at(stored.log, stored_after.log, i),
        f < entries.len() && stored.log.dom().contains(msg.prev_log_index + 1 + f) ==> forall|i: int|
            i > msg.prev_log_index + entries.len() ==> !(#[trigger]
            stored_after.log.dom().contains(i)),
        !stored.log.dom().contains(msg.prev_log_index + 1 + f) ==> forall|i: int|
            i > msg.prev_log_index + entries.len() ==> same_at(stored.log, stored_after.log, i),
{
    let prev = msg.prev_log_index;
    let m = before.following(msg, now_ms);
    let base = if msg.term > before.hard.current_term.0 {
        saved(stored, m.hard)
    } else {
        stored
    };
    let f = first_new(m, base, prev, entries, 0);
    lemma_before_first_new(m, base, prev, entries, 0);
    lemma_first_new_is_new(m, base, prev, entries, 0);
    assert(m.arena == before.arena);
    assert forall|i: int| local_term(m, base, i) == stored.term_of(i) by {
        if m.arena.lookup(i) is Some {
            assert(stored.log.dom().contains(i));
        }
    }
    assert forall|i: int| prev < i <= prev + f implies #[trigger] stored.log.dom().contains(i)
        && stored.log[i].term == entries[i - prev - 1].term by {
        assert(already_there(m, base, prev, entries, i - prev - 1));
        assert(entries[i - prev - 1].index.0 == i);
    }
    if f < entries.len() {
        let fresh = entries.skip(f);
        let start = prev + 1 + f;
        let cut = if m.conflicts(base, prev, entries) {
            crate::traits::log_before(base.log, entries[f].index.0 as int)
        } else {
            base.log
        };
        assert(entries[f].index.0 == start);
        assert forall|k: int| 0 <= k < fresh.len() implies (#[trigger] fresh[k]).index.0 == start
            + k by {
            assert(fresh[k] == entries[f + k]);
        }
        assert forall|i: int| prev + f < i <= prev + entries.len() implies #[trigger]
            stored_after.log.dom().contains(i) && stored_after.log[i] == entries[i - prev - 1] by {
            lemma_log_with(cut, fresh, start, i);
            assert(fresh[i - start] == entries[i - prev - 1]);
        }
        assert forall|i: int| i < start implies same_at(stored.log, stored_after.log, i) by {
            lemma_log_with(cut, fresh, start, i);
        }
        if stored.log.dom().contains(start) {
            assert forall|i: int| i > prev + entries.len() implies !(#[trigger]
            stored_after.log.dom().contains(i)) by {
                lemma_log_with(cut, fresh, start, i);
            }
        } else {
            assert forall|i: int| i > prev + entries.len() implies same_at(
                stored.log,
                stored_after.log,
                i,
            ) by {
                lemma_log_with(cut, fresh, start, i);
            }
        }
        assert(fresh.last() == entries.last());
    }
    f
}

/// The first new entry is one that the log does not hold in its place.
proof fn lemma_first_new_is_new(
    m: NodeModel,
    stored: StorageModel,
    prev: u64,
    entries: Seq<EntryRecord>,
    k: int,
)
    requires
        0 <= k <= entries.len(),
    ensures
        first_new(m, stored, prev, entries, k) < entries.len() ==> !already_there(
            m,
            stored,
            prev,
            entries,
            first_new(m, stored, prev, entries, k),
        ),
    decreases entries.len() - k,
{
    if k < entries.len() && already_there(m, stored, prev, entries, k) {
        lemma_first_new_is_new(m, stored, prev, entries, k + 1);
    }
}

/// The log matching property survives a batch: where the logs of leader and
/// follower matched, an accepted request leaves them equal at every index up to the
/// last entry sent, and the follower holds all that was sent.
pub proof fn law_logs_agree_up_to_what_was_sent(
    leader_log: Map<int, EntryRecord>,
    before: NodeModel,
    stored: StorageModel,
    msg: AppendEntries,
    entries: Seq<EntryRecord>,
    now_ms: u64,
    resp: AppendEntriesResp,
    after: NodeModel,
    stored_after: StorageModel,
)
    requires
        append_outcome(before, stored, msg, entries, now_ms, Ok(resp), after, stored_after),
        msg.term >= before.hard.current_term.0,
        resp.success != 0,
        sent_from(leader_log, msg, entries),
        logs_match(leader_log, stored.log),
        memory_is_true(before, stored.log),
        forall|i: int| #[trigger] stored.log.dom().contains(i) ==> i > 0,
        stored.log.dom().contains(msg.prev_log_index as int) || forall|i: int|
            i <= msg.prev_log_index ==> !(#[trigger] stored.log.dom().contains(i)),
    ensures
        forall|i: int|
            msg.prev_log_index < i <= msg.prev_log_index + entries.len() ==> #[trigger]
                stored_after.log.dom().contains(i),
        forall|i: int|
            i <= msg.prev_log_index + entries.len() && leader_log.dom().contains(i)
                && #[trigger] stored_after.log.dom().contains(i) ==> stored_after.log[i]
                == leader_log[i],
{
    let prev = msg.prev_log_index as int;
    assert forall|k: int| 0 <= k < entries.len() implies (#[trigger] entries[k]).index.0
        == msg.prev_log_index + 1 + k by {
        assert(sent_at(leader_log, prev, entries, prev + 1 + k));
    }
    let f = lemma_accepted_log(
        before,
        stored,
        msg,
        entries,
        now_ms,
        resp,
        after,
        stored_after,
    );
    if prev > 0 {
        law_batches_follow_a_shared_entry(
            before,
            stored,
            msg,
            entries,
            now_ms,
            resp,
            after,
            stored_after,
        );
    }
    assert forall|i: int| prev < i <= prev + entries.len() implies #[trigger]
        stored_after.log.dom().contains(i) && stored_after.log[i] == leader_log[i] by {
        let k = i - prev - 1;
        assert(sent_at(leader_log, prev, entries, i));
        assert(entries[k] == leader_log[i]);
        if k < f {
            assert(same_at(stored.log, stored_after.log, i));
            assert(stored.log.dom().contains(i));
            assert(stored.log[i].term == entries[k].term);
            assert(leader_log.dom().contains(i) && stored.log.dom().contains(i));
        }
    }
    assert forall|i: int|
        i <= prev && leader_log.dom().contains(i) && #[trigger] stored_after.log.dom().contains(
            i,
        ) implies stored_after.log[i] == leader_log[i] by {
        assert(same_at(stored.log, stored_after.log, i));
        assert(stored.log.dom().contains(prev));
        assert(leader_log.dom().contains(prev));
    }
}

/// A batch that contradicts the follower's log replaces its tail, and one that does
/// not takes nothing away: entries past the batch go exactly where an entry of the
/// batch meets one of another term.
pub proof fn law_only_contradicted_tails_go(
    before: NodeModel,
    stored: StorageModel,
    msg: AppendEntries,
    entries: Seq<EntryRecord>,
    now_ms: u64,
    resp: AppendEntriesResp,
    after: NodeModel,
    stored_after: StorageModel,
    met: int,
    i: int,
)
    requires
        append_outcome(before, stored, msg, entries, now_ms, Ok(resp), after, stored_after),
        resp.success != 0,
        memory_is_true(before, stored.log),
        msg.prev_log_index + entries.len() < u64::MAX,
        forall|k: int|
            0 <= k < entries.len() ==> (#[trigger] entries[k]).index.0 == msg.prev_log_index + 1
                + k,
    ensures
        i <= msg.prev_log_index ==> same_at(stored.log, stored_after.log, i),
        i > msg.prev_log_index + entries.len() && (forall|j: int|
            msg.prev_log_index < j <= msg.prev_log_index + entries.len()
                && #[trigger] stored.log.dom().contains(j) ==> stored.log[j].term == entries[j
                - msg.prev_log_index - 1].term) ==> same_at(stored.log, stored_after.log, i),
        i > msg.prev_log_index + entries.len() && msg.prev_log_index < met <= msg.prev_log_index
            + entries.len() && stored.log.dom().contains(met) && stored.log[met].term != entries[met
            - msg.prev_log_index - 1].term && (forall|j: int|
            msg.prev_log_index < j < met ==> #[trigger] stored.log.dom().contains(j)
                && stored.log[j].term == entries[j - msg.prev_log_index - 1].term)
            ==> !stored_after.log.dom().contains(i),
{
    let prev = msg.prev_log_index as int;
    let f = lemma_accepted_log(
        before,
        stored,
        msg,
        entries,
        now_ms,
        resp,
        after,
        stored_after,
    );
    if f < entries.len() {
        let first = prev + 1 + f;
        if stored.log.dom().contains(first) {
            assert(stored.log[first].term != entries[first - prev - 1].term);
        }
        if prev < met <= prev + f {
            assert(stored.log.dom().contains(met));
        }
        if met > first && (forall|j: int|
            prev < j < met ==> #[trigger] stored.log.dom().contains(j) && stored.log[j].term
                == entries[j - prev - 1].term) {
            assert(stored.log.dom().contains(first));
        }
    } else if prev < met <= prev + entries.len() {
        assert(stored.log.dom().contains(met));
    }
}

/// What a follower reports after a success is where its log now ends: past the batch
/// where anything of it was new, and otherwise where it ended before.
pub proof fn law_successes_report_the_tip(
    before: NodeModel,
    stored: StorageModel,
    msg: AppendEntries,
    entries: Seq<EntryRecord>,
    now_ms: u64,
    resp: AppendEntriesResp,
    after: NodeModel,
    stored_after: StorageModel,
)
    requires
        append_outcome(before, stored, msg, entries, now_ms, Ok(resp), after, stored_after),
        resp.success != 0,
        memory_is_true(before, stored.log),
        msg.prev_log_index + entries.len() < u64::MAX,
        forall|k: int|
            0 <= k < entries.len() ==> (#[trigger] entries[k]).index.0 == msg.prev_log_index + 1
                + k,
    ensures
        resp.match_index == after.last_log.0.0,
        (forall|j: int|
            msg.prev_log_index < j <= msg.prev_log_index + entries.len() ==> #[trigger]
                stored.log.dom().contains(j) && stored.log[j].term == entries[j
                - msg.prev_log_index - 1].term) ==> after.last_log == before.last_log
            && stored_after.log == stored.log,
        !(forall|j: int|
            msg.prev_log_index < j <= msg.prev_log_index + entries.len() ==> #[trigger]
                stored.log.dom().contains(j) && stored.log[j].term == entries[j
                - msg.prev_log_index - 1].term) ==> resp.match_index == msg.prev_log_index
            + entries.len() && after.last_log.1 == entries.last().term,
{
    let prev = msg.prev_log_index as int;
    let f = lemma_accepted_log(
        before,
        stored,
        msg,
        entries,
        now_ms,
        resp,
        after,
        stored_after,
    );
    if f < entries.len() {
        let first = prev + 1 + f;
        if stored.log.dom().contains(first) {
            assert(stored.log[first].term != entries[first - prev - 1].term);
        }
        assert(entries.last().index.0 == prev + entries.len());
    }
}

/// A follower commits what the leader has committed, as far as its own log reaches,
/// and never takes a commit back; a request that it refuses commits nothing.
pub proof fn law_followers_commit_what_they_hold(
    before: NodeModel,
    stored: StorageModel,
    msg: AppendEntries,
    entries: Seq<EntryRecord>,
    now_ms: u64,
    resp: AppendEntriesResp,
    after: NodeModel,
    stored_after: StorageModel,
)
    requires
        append_outcome(before, stored, msg, entries, now_ms, Ok(resp), after, stored_after),
    ensures
        ({
            let was = before.soft.commit_index.0;
            let is = after.soft.commit_index.0;
            &&& is >= was
            &&& resp.success == 0 ==> is == was
            &&& is > was ==> is <= msg.leader_commit && is <= after.last_log.0.0
            &&& resp.success != 0 ==> is >= msg.leader_commit || is >= after.last_log.0.0
        }),
        after.last_applied == before.last_applied,
{
}

/// A request of an older term is refused with the newer one and with where the log ends,
/// and changes nothing. Any other makes the node a follower of its sender, at the sender's
/// term; a vote of the term is kept, one of an older term is not. The answer echoes the
/// probe that came with the request.
pub proof fn law_current_requests_are_followed(
    before: NodeModel,
    stored: StorageModel,
    msg: AppendEntries,
    entries: Seq<EntryRecord>,
    now_ms: u64,
    resp: AppendEntriesResp,
    after: NodeModel,
    stored_after: StorageModel,
)
    requires
        append_outcome(before, stored, msg, entries, now_ms, Ok(resp), after, stored_after),
    ensures
        msg.term < before.hard.current_term.0 ==> {
            &&& resp.success == 0
            &&& resp.term == before.hard.current_term.0
            &&& resp.match_index == before.last_log.0.0
            &&& after == before
            &&& stored_after == stored
        },
        msg.term >= before.hard.current_term.0 ==> {
            &&& resp.term == msg.term
            &&& after.hard.current_term.0 == msg.term
            &&& after.soft.role == Role::Follower
            &&& !after.soft.is_leader
            &&& after.soft.leader_id == Some(PeerId(msg.leader_id))
            &&& after.leader_contact == Some(now_ms)
            &&& msg.term == before.hard.current_term.0 ==> after.hard == before.hard
            &&& msg.term > before.hard.current_term.0 ==> after.hard.voted_for is None
                && stored_after.hard_state == after.hard
        },
        field(resp._pad@, 0, 4) == msg._pad,
{
    lemma_le_fields();
    assert(resp._pad@.subrange(0, 4) =~= le_bytes(msg._pad as nat, 4));
}

/// The payloads of `entries`, one after another.
pub open spec fn joined(entries: Seq<EntryRecord>) -> Seq<u8>
    decreases entries.len(),
{
    if entries.len() == 0 {
        Seq::empty()
    } else {
        joined(entries.drop_last()) + entries.last().payload
    }
}

/// A batch whose headers come first holds as many entries as there are headers: each with
/// the term, the index and the payload length of its own header, and their payloads, one
/// after another, are all that follows the headers.
pub proof fn law_seeded_batches_are_read_in_place(
    headers: Seq<u8>,
    payloads: Seq<u8>,
    n: nat,
    i: int,
)
    requires
        headers.len() >= 24 * n,
        seeded_total(headers, n) <= payloads.len(),
        0 <= i < n,
    ensures
        ({
            let entries = seeded_entries(headers, payloads, n);
            &&& entries.len() == n
            &&& entries[i].term.0 == eight_bytes(headers, 24 * i)
            &&& entries[i].index.0 == eight_bytes(headers, 24 * i + 8)
            &&& entries[i].payload.len() == four_bytes(headers, 24 * i + 16)
            &&& joined(entries) == payloads.take(seeded_total(headers, n) as int)
        }),
    decreases n,
{
    let front = seeded_entries(headers, payloads, (n - 1) as nat);
    let all = seeded_entries(headers, payloads, n);
    let last = seeded_entry(headers, payloads, n - 1);
    let start = seeded_total(headers, (n - 1) as nat) as int;
    let end = seeded_total(headers, n) as int;
    assert(all == front.push(last));
    assert(all.drop_last() =~= front);
    assert(payloads.take(start) + payloads.subrange(start, end) =~= payloads.take(end));
    lemma_fields_are_numbers(headers, 24 * i);
    lemma_fields_are_numbers(headers, 24 * i + 8);
    lemma_fields_are_numbers(headers, 24 * i + 16);
    if n > 1 {
        law_seeded_batches_are_read_in_place(
            headers,
            payloads,
            (n - 1) as nat,
            if i < n - 1 {
                i
            } else {
                0
            },
        );
    } else {
        assert(front.len() == 0 && start == 0);
        assert(payloads.take(0) =~= Seq::<u8>::empty());
    }
    assert(joined(front) == payloads.take(start));
    assert(joined(all) == joined(all.drop_last()) + all.last().payload);
}

/// Of several membership changes in a batch the last one counts, and a batch without any
/// has none.
pub proof fn law_the_last_change_counts(entries: Seq<EntryRecord>, k: int)
    requires
        -1 <= k < entries.len(),
        forall|i: int|
            k < i < entries.len() ==> decode_config((#[trigger] entries[i]).payload) is None,
        k >= 0 ==> decode_config(entries[k].payload) is Some,
    ensures
        k >= 0 ==> latest_config(entries) == decode_config(entries[k].payload),
        k < 0 ==> latest_config(entries) is None,
    decreases entries.len(),
{
    if entries.len() > 0 && k < entries.len() - 1 {
        let front = entries.drop_last();
        assert(decode_config(entries[entries.len() - 1].payload) is None);
        assert forall|i: int| k < i < front.len() implies decode_config(
            (#[trigger] front[i]).payload,
        ) is None by {
            assert(front[i] == entries[i]);
        }
        law_the_last_change_counts(front, k);
    }
}

/// A follower is a member of the cluster that its log describes: the membership stays as it
/// is through a batch without a change, and the last change in a batch that is new to the
/// log takes effect with it, before anything is committed.
pub proof fn law_changes_take_effect_in_the_log(
    before: NodeModel,
    stored: StorageModel,
    msg: AppendEntries,
    entries: Seq<EntryRecord>,
    now_ms: u64,
    resp: AppendEntriesResp,
    after: NodeModel,
    stored_after: StorageModel,
    k: int,
)
    requires
        append_outcome(before, stored, msg, entries, now_ms, Ok(resp), after, stored_after),
        resp.success != 0,
        entries.len() > 0,
        before.arena.lookup(entries[0].index.0 as int) is None,
        !stored.log.dom().contains(entries[0].index.0 as int),
        -1 <= k < entries.len(),
        forall|i: int|
            k < i < entries.len() ==> decode_config((#[trigger] entries[i]).payload) is None,
        k >= 0 ==> decode_config(entries[k].payload) is Some,
    ensures
        k < 0 ==> {
            &&& after.peers == before.peers
            &&& after.learners == before.learners
            &&& after.joint == before.joint
        },
        k >= 0 ==> {
            let c = decode_config(entries[k].payload)->0;
            &&& c.phase is Joint ==> after.joint == Some((c.old_peers, c.new_peers))
            &&& c.phase is Final && c.new_peers.len() > 0 ==> after.peers == c.new_peers
                && after.joint is None
            &&& c.phase is AddLearner || c.phase is RemoveLearner ==> after.peers == before.peers
                && after.joint == before.joint
        },
{
    let m = before.following(msg, now_ms);
    let base = if msg.term > before.hard.current_term.0 {
        saved(stored, m.hard)
    } else {
        stored
    };
    assert(first_new(m, base, msg.prev_log_index, entries, 0) == 0);
    assert(entries.skip(0) =~= entries);
    law_the_last_change_counts(entries, k);
}

} // verus!
