//! Append requests and their responses.

use vstd::prelude::*;

use crate::entry::{EntryPayload, EntryRecord, LogEntry};
use crate::error::RaftError;
use crate::node::generational::ArenaModel;
use crate::node::membership::{
    decode_config, empties_the_cluster, is_empty_change, ConfigChange, ConfigChangeEntry,
};
use crate::node::raft_node::{cut_from, saved, step_down_outcome, NodeModel, RaftNode};
use crate::protocol::codec::le::{field, le_bytes, u32_bytes};
use crate::protocol::codec::wire::{AppendEntries, AppendEntriesResp, ENTRY_HEADER_SIZE};
use crate::protocol::message::{
    entries_in, records, seeded_len, seeded_total, AppendEntriesEntryIter, AppendEntriesRawIter,
    SeededPayloads,
};
use crate::state::{Role, SoftState};
use crate::text::text;
use crate::traits::{
    log_before, log_with, refused_cleanly, tip_with, RaftStorage, StorageModel,
};
use crate::types::{LogIndex, PeerId, Term};

verus! {

/// `a + b`, or the largest index where that is more.
pub open spec fn capped_sum(a: nat, b: nat) -> nat {
    if a + b > u64::MAX {
        u64::MAX as nat
    } else {
        a + b
    }
}

/// The index that entry number `k` after `prev` must have.
pub open spec fn expected_index(prev: u64, k: nat) -> nat {
    capped_sum(capped_sum(prev as nat, 1), k)
}

/// What the node knows of the term at `index`: what it remembers, or else what
/// its storage holds.
pub open spec fn local_term(m: NodeModel, stored: StorageModel, index: int) -> Option<Term> {
    match m.arena.lookup(index) {
        Some(t) => Some(t),
        None => stored.term_of(index),
    }
}

/// Whether entry number `k` is already in the log, in its place.
pub open spec fn already_there(
    m: NodeModel,
    stored: StorageModel,
    prev: u64,
    entries: Seq<EntryRecord>,
    k: int,
) -> bool {
    &&& entries[k].index.0 == expected_index(prev, k as nat)
    &&& local_term(m, stored, entries[k].index.0 as int) == Some(entries[k].term)
}

/// The number of the first entry, from `k` on, that is not already in the log in
/// its place.
pub open spec fn first_new(
    m: NodeModel,
    stored: StorageModel,
    prev: u64,
    entries: Seq<EntryRecord>,
    k: int,
) -> int
    decreases entries.len() - k,
{
    if k >= entries.len() {
        entries.len() as int
    } else if already_there(m, stored, prev, entries, k) {
        first_new(m, stored, prev, entries, k + 1)
    } else {
        k
    }
}

/// Whether the scan of a batch meets an entry that is out of place.
pub open spec fn out_of_place(
    m: NodeModel,
    stored: StorageModel,
    prev: u64,
    entries: Seq<EntryRecord>,
) -> bool {
    let f = first_new(m, stored, prev, entries, 0);
    f < entries.len() && entries[f].index.0 != expected_index(prev, f as nat)
}

/// Whether the very first entry of a batch is out of place.
pub open spec fn starts_out_of_place(prev: u64, entries: Seq<EntryRecord>) -> bool {
    entries.len() > 0 && entries[0].index.0 != expected_index(prev, 0)
}

/// The arena with the terms of `entries` remembered.
pub open spec fn arena_with(arena: ArenaModel, entries: Seq<EntryRecord>) -> ArenaModel
    decreases entries.len(),
{
    if entries.len() == 0 {
        arena
    } else {
        arena_with(arena, entries.drop_last()).appended(
            entries.last().index.0,
            entries.last().term,
        )
    }
}

/// The last membership change among `entries`.
pub open spec fn latest_config(entries: Seq<EntryRecord>) -> Option<ConfigChange>
    decreases entries.len(),
{
    if entries.len() == 0 {
        None
    } else {
        match decode_config(entries.last().payload) {
            Some(c) => Some(c),
            None => latest_config(entries.drop_last()),
        }
    }
}

impl NodeModel {
    /// The node as a follower of the request's leader.
    pub open spec fn following(self, msg: AppendEntries, now_ms: u64) -> NodeModel {
        let m = self.caught_up_with(msg.term);
        NodeModel {
            soft: SoftState {
                role: Role::Follower,
                is_leader: false,
                leader_id: Some(PeerId(msg.leader_id)),
                commit_index: m.soft.commit_index,
            },
            leader_contact: Some(now_ms),
            ..m
        }
    }

    /// Whether the log agrees with the leader's up to the entry before the
    /// batch.
    pub open spec fn agrees_at(self, stored: StorageModel, prev: u64, prev_term: u64) -> bool {
        match self.arena.lookup(prev as int) {
            Some(t) => t.0 == prev_term,
            None => if prev == 0 {
                true
            } else {
                match stored.term_of(prev as int) {
                    Some(t) => t.0 == prev_term,
                    None => (self.last_log.0.0 == prev && self.last_log.1.0 == prev_term) || (
                    self.boundary.0.0 == prev && self.boundary.1.0 == prev_term),
                }
            },
        }
    }

    /// Whether the first new entry contradicts the log, so that its tail must
    /// go.
    pub open spec fn conflicts(
        self,
        stored: StorageModel,
        prev: u64,
        entries: Seq<EntryRecord>,
    ) -> bool {
        let f = first_new(self, stored, prev, entries, 0);
        f < entries.len() && local_term(self, stored, entries[f].index.0 as int) is Some
    }

    /// The node once the new part of a batch is in the log, before a membership
    /// change in it takes effect.
    pub open spec fn lengthened(
        self,
        stored: StorageModel,
        prev: u64,
        entries: Seq<EntryRecord>,
    ) -> NodeModel {
        let f = first_new(self, stored, prev, entries, 0);
        let fresh = entries.skip(f);
        let cut = if self.conflicts(stored, prev, entries) {
            self.arena.truncated(entries[f].index.0)
        } else {
            self.arena
        };
        NodeModel {
            arena: arena_with(cut, fresh),
            last_log: (fresh.last().index, fresh.last().term),
            ..self
        }
    }

    /// The last membership change in the new part of a batch.
    pub open spec fn change_in(
        self,
        stored: StorageModel,
        prev: u64,
        entries: Seq<EntryRecord>,
    ) -> Option<ConfigChange> {
        latest_config(entries.skip(first_new(self, stored, prev, entries, 0)))
    }

    /// The node once the new part of a batch is in the log.
    pub open spec fn extended(
        self,
        stored: StorageModel,
        prev: u64,
        entries: Seq<EntryRecord>,
    ) -> NodeModel {
        if first_new(self, stored, prev, entries, 0) >= entries.len() {
            self
        } else {
            let grown = self.lengthened(stored, prev, entries);
            match self.change_in(stored, prev, entries) {
                Some(c) => grown.changed(c),
                None => grown,
            }
        }
    }

    /// The log once the new part of a batch is in it.
    pub open spec fn extended_log(
        self,
        stored: StorageModel,
        prev: u64,
        entries: Seq<EntryRecord>,
    ) -> Map<int, EntryRecord> {
        let f = first_new(self, stored, prev, entries, 0);
        if f >= entries.len() {
            stored.log
        } else {
            let cut = if self.conflicts(stored, prev, entries) {
                log_before(stored.log, entries[f].index.0 as int)
            } else {
                stored.log
            };
            log_with(cut, entries.skip(f))
        }
    }

    /// The storage once the new part of a batch is in the log.
    pub open spec fn extended_storage(
        self,
        stored: StorageModel,
        prev: u64,
        entries: Seq<EntryRecord>,
    ) -> StorageModel {
        let f = first_new(self, stored, prev, entries, 0);
        StorageModel {
            log: self.extended_log(stored, prev, entries),
            tip: tip_with(stored.tip, entries.skip(f)),
            ..stored
        }
    }

    /// The node with the leader's commit index adopted, as far as its own log
    /// reaches. The commit index never goes back.
    pub open spec fn commit_adopted(self, leader_commit: u64) -> NodeModel {
        let reach = if leader_commit < self.last_log.0.0 {
            leader_commit
        } else {
            self.last_log.0.0
        };
        if reach > self.soft.commit_index.0 {
            self.committed_to(LogIndex(reach))
        } else {
            self
        }
    }

    /// Whether what the node remembers of the log is what the storage holds.
    pub open spec fn remembers(self, stored: StorageModel) -> bool {
        self.arena.agrees(|i: int| stored.term_of(i))
    }
}

/// An append response: `echo` is the probe token of the request.
pub open spec fn is_append_response(
    resp: AppendEntriesResp,
    term: Term,
    success: bool,
    match_index: u64,
    echo: u32,
) -> bool {
    &&& resp.term == term.0
    &&& resp.match_index == match_index
    &&& resp.success == if success {
        1u8
    } else {
        0u8
    }
    &&& resp._pad@ == le_bytes(echo as nat, 4) + seq![0u8, 0, 0]
}

/// An append response.
pub fn append_response(term: Term, success: bool, match_index: u64, echo: u32) -> (r:
    AppendEntriesResp)
    ensures
        is_append_response(r, term, success, match_index, echo),
{
    let b = u32_bytes(echo);
    let r = AppendEntriesResp {
        term: term.0,
        match_index,
        success: if success {
            1
        } else {
            0
        },
        _pad: [b[0], b[1], b[2], b[3], 0, 0, 0],
    };
    assert(r._pad@ =~= le_bytes(echo as nat, 4) + seq![0u8, 0, 0]);
    r
}

/// Where a leader should look next after a refusal: below the entry it asked
/// about, and no further than the follower's log reaches.
pub open spec fn reject_hint(m: NodeModel, prev: u64) -> u64 {
    let below = if prev == 0 {
        0
    } else {
        (prev - 1) as u64
    };
    if m.last_log.0.0 < below {
        m.last_log.0.0
    } else {
        below
    }
}

/// How an append request came out.
pub open spec fn append_outcome(
    before: NodeModel,
    stored: StorageModel,
    msg: AppendEntries,
    entries: Seq<EntryRecord>,
    now_ms: u64,
    r: Result<AppendEntriesResp, RaftError>,
    after: NodeModel,
    stored_after: StorageModel,
) -> bool {
    if msg.term < before.hard.current_term.0 {
        &&& r matches Ok(resp) && is_append_response(
            resp,
            before.hard.current_term,
            false,
            before.last_log.0.0,
            msg._pad,
        )
        &&& after == before
        &&& stored_after == stored
    } else {
        let m = before.following(msg, now_ms);
        let base = if msg.term > before.hard.current_term.0 {
            saved(stored, m.hard)
        } else {
            stored
        };
        match r {
            Ok(resp) => if !m.agrees_at(base, msg.prev_log_index, msg.prev_log_term) {
                &&& is_append_response(
                    resp,
                    m.hard.current_term,
                    false,
                    reject_hint(m, msg.prev_log_index),
                    msg._pad,
                )
                &&& after == m
                &&& stored_after == base
            } else {
                let grown = m.extended(base, msg.prev_log_index, entries);
                &&& !out_of_place(m, base, msg.prev_log_index, entries)
                &&& after == grown.commit_adopted(msg.leader_commit)
                &&& stored_after == m.extended_storage(base, msg.prev_log_index, entries)
                &&& is_append_response(
                    resp,
                    m.hard.current_term,
                    true,
                    grown.last_log.0.0,
                    msg._pad,
                )
            },
            Err(e) => {
                ||| msg.term > before.hard.current_term.0 && step_down_outcome(
                    before,
                    stored,
                    Term(msg.term),
                    Err(e),
                    after,
                    stored_after,
                )
                ||| batch_failure(e, m, base, msg.prev_log_index, entries, after, stored_after)
            },
        }
    }
}

/// How far a batch had come when it failed: nothing was changed, the tail that it
/// contradicts was cut and the rest is still missing, or it is in the log and the
/// membership change in it is void.
pub open spec fn batch_failure(
    e: RaftError,
    m: NodeModel,
    stored: StorageModel,
    prev: u64,
    entries: Seq<EntryRecord>,
    after: NodeModel,
    stored_after: StorageModel,
) -> bool {
    let f = first_new(m, stored, prev, entries, 0);
    let arena = m.arena.truncated(entries[f].index.0);
    ||| after == m && refused_cleanly(e, stored, stored_after)
    ||| {
        &&& m.conflicts(stored, prev, entries)
        &&& exists|cut: StorageModel| #[trigger]
            cut_from(stored, entries[f].index, cut) && refused_cleanly(e, cut, stored_after) && (
            after == (NodeModel { arena, ..m }) || after == (NodeModel {
                arena,
                last_log: cut.tip,
                ..m
            }))
    }
    ||| {
        &&& leaves_nobody(m, stored, prev, entries)
        &&& after == m.lengthened(stored, prev, entries).reconfigured(
            m.change_in(stored, prev, entries)->0,
        )
        &&& stored_after == m.extended_storage(stored, prev, entries)
    }
}

/// Whether the new part of a batch ends in a membership change without a voter.
pub open spec fn leaves_nobody(
    m: NodeModel,
    stored: StorageModel,
    prev: u64,
    entries: Seq<EntryRecord>,
) -> bool {
    &&& first_new(m, stored, prev, entries, 0) < entries.len()
    &&& !out_of_place(m, stored, prev, entries)
    &&& m.change_in(stored, prev, entries) matches Some(c) && empties_the_cluster(c)
}

/// Whether an append request is at fault itself, so that it is an error over any
/// storage: its batch follows an entry on which the logs agree, and an entry that
/// is not in the log yet is out of place, or its last membership change is void.
pub open spec fn append_fault(
    before: NodeModel,
    stored: StorageModel,
    msg: AppendEntries,
    entries: Seq<EntryRecord>,
    complaint: Seq<char>,
    now_ms: u64,
    e: RaftError,
    after: NodeModel,
) -> bool {
    let m = before.following(msg, now_ms);
    let base = if msg.term > before.hard.current_term.0 {
        saved(stored, m.hard)
    } else {
        stored
    };
    &&& msg.term >= before.hard.current_term.0
    &&& m.agrees_at(base, msg.prev_log_index, msg.prev_log_term)
    &&& if out_of_place(m, base, msg.prev_log_index, entries) {
        e.is_protocol(complaint) && after == m
    } else {
        is_empty_change(e) && leaves_nobody(m, base, msg.prev_log_index, entries)
    }
}

/// What is owed of an append request that needs no answer from the storage:
/// the node remembers the entry before the batch, and no newer term is to be
/// saved. A request without entries is answered; a batch that starts out of
/// place is refused with `complaint`, and only the contact is recorded.
pub open spec fn memory_outcome(
    before: NodeModel,
    msg: AppendEntries,
    entries: Seq<EntryRecord>,
    complaint: Seq<char>,
    now_ms: u64,
    r: Result<AppendEntriesResp, RaftError>,
    after: NodeModel,
) -> bool {
    let remembered = msg.prev_log_index == 0 || before.arena.lookup(
        msg.prev_log_index as int,
    ) is Some;
    msg.term == before.hard.current_term.0 && remembered ==> {
        &&& entries.len() == 0 ==> r is Ok
        &&& starts_out_of_place(msg.prev_log_index, entries) && (msg.prev_log_index == 0
            || before.arena.lookup(msg.prev_log_index as int) == Some(Term(msg.prev_log_term)))
            && before.arena.lookup(0) is None ==> {
            &&& r matches Err(e) && e.is_protocol(complaint)
            &&& after == before.following(msg, now_ms)
        }
    }
}

/// The entries of a seeded batch, as far as header and payload are there.
pub open spec fn seeded_entries(headers: Seq<u8>, payloads: Seq<u8>, n: nat) -> Seq<EntryRecord>
    decreases n,
{
    if n == 0 {
        Seq::empty()
    } else {
        seeded_entries(headers, payloads, (n - 1) as nat).push(
            seeded_entry(headers, payloads, n - 1),
        )
    }
}

/// Entry number `i` of a seeded batch.
pub open spec fn seeded_entry(headers: Seq<u8>, payloads: Seq<u8>, i: int) -> EntryRecord {
    let start = seeded_total(headers, i as nat);
    let at = i * ENTRY_HEADER_SIZE;
    EntryRecord {
        term: Term(field(headers, at, 8) as u64),
        index: LogIndex(field(headers, at + 8, 8) as u64),
        payload: payloads.subrange(
            start as int,
            (start + seeded_len(headers, i)) as int,
        ),
    }
}

/// The entries of a seeded batch.
pub fn collect_seeded<'a>(headers: &'a [u8], payloads: &'a [u8]) -> (r: Vec<LogEntry<'a>>)
    ensures
        forall|n: nat|
            headers@.len() == n * ENTRY_HEADER_SIZE
                && seeded_total(headers@, n) == payloads@.len()
                ==> records(r@) == #[trigger] seeded_entries(headers@, payloads@, n),
{
    let mut it = AppendEntriesRawIter::new(headers, SeededPayloads::Contiguous(payloads));
    let mut out: Vec<LogEntry<'a>> = Vec::new();
    let whole: usize = headers.len() / ENTRY_HEADER_SIZE;
    assert(records(out@) =~= Seq::empty());
    let mut complete: bool = true;
    let mut i: usize = 0;
    while i < whole && complete
        invariant
            i <= whole,
            whole == headers@.len() / ENTRY_HEADER_SIZE as nat,
            it.header_bytes() == headers@,
            it.source() == SeededPayloads::Contiguous(payloads),
            complete ==> it.position() == i && it.consumed()
                == seeded_total(headers@, i as nat) && records(out@)
                == seeded_entries(headers@, payloads@, i as nat),
            !complete ==> exists|k: nat|
                k <= whole && #[trigger] seeded_total(headers@, k)
                    > payloads@.len(),
        decreases whole - i, if complete { 1nat } else { 0nat },
    {
        let ghost start = it;
        match it.next() {
            None => {
                proof {
                    assert(seeded_total(headers@, (i + 1) as nat)
                        > payloads@.len());
                }
                complete = false;
            },
            Some((header, payload)) => {
                let ghost held = records(out@);
                out.push(
                    LogEntry {
                        term: Term(header.term),
                        index: LogIndex(header.index),
                        payload: EntryPayload(payload),
                    },
                );
                proof {
                    let at = i * ENTRY_HEADER_SIZE;
                    let tail = headers@.skip(at);
                    assert(tail.subrange(0, 8) =~= headers@.subrange(at, at + 8));
                    assert(tail.subrange(8, 16) =~= headers@.subrange(at + 8, at + 16));
                    assert(records(out@) =~= held.push(
                        seeded_entry(headers@, payloads@, i as int),
                    ));
                }
                i = i + 1;
            },
        }
    }
    proof {
        assert forall|n: nat|
            headers@.len() == n * ENTRY_HEADER_SIZE
                && seeded_total(headers@, n)
                == payloads@.len() implies records(out@) == #[trigger] seeded_entries(
            headers@,
            payloads@,
            n,
        ) by {
            assert(n == whole);
            if !complete {
                let k = choose|k: nat|
                    k <= whole && #[trigger] seeded_total(
                        headers@,
                        k,
                    ) > payloads@.len();
                lemma_seeded_total_grows(headers@, k, n);
            }
        }
    }
    out
}

proof fn lemma_seeded_total_grows(headers: Seq<u8>, k: nat, n: nat)
    requires
        k <= n,
    ensures
        seeded_total(headers, k)
            <= seeded_total(headers, n),
    decreases n,
{
    if k < n {
        lemma_seeded_total_grows(headers, k, (n - 1) as nat);
    }
}

/// Finds the last membership change among `entries[from..]`.
fn find_latest_config(entries: &Vec<LogEntry<'_>>, from: usize) -> (r: Option<ConfigChangeEntry>)
    requires
        from <= entries@.len(),
    ensures
        match latest_config(records(entries@).skip(from as int)) {
            Some(c) => r matches Some(e) && e@ == c,
            None => r is None,
        },
{
    let ghost tail = records(entries@).skip(from as int);
    let mut i: usize = entries.len();
    assert(tail.take(tail.len() as int) =~= tail);
    while i > from
        invariant
            from <= i <= entries@.len(),
            tail == records(entries@).skip(from as int),
            latest_config(tail.take(i - from)) == latest_config(tail),
        decreases i,
    {
        i = i - 1;
        assert(tail.take(i + 1 - from).drop_last() =~= tail.take(i - from));
        assert(tail.take(i + 1 - from).last() == entries@[i as int]@);
        match ConfigChangeEntry::decode(entries[i].payload.0) {
            Some(e) => {
                return Some(e);
            },
            None => {},
        }
    }
    None
}

/// The entries from `from` on.
fn tail_of<'a>(entries: &Vec<LogEntry<'a>>, from: usize) -> (r: Vec<LogEntry<'a>>)
    requires
        from <= entries@.len(),
    ensures
        r@ == entries@.skip(from as int),
        records(r@) == records(entries@).skip(from as int),
{
    let mut out: Vec<LogEntry<'a>> = Vec::new();
    let mut i: usize = from;
    while i < entries.len()
        invariant
            from <= i <= entries@.len(),
            out@ =~= entries@.subrange(from as int, i as int),
        decreases entries@.len() - i,
    {
        out.push(entries[i]);
        i = i + 1;
    }
    assert(out@ =~= entries@.skip(from as int));
    assert(records(out@) =~= records(entries@).skip(from as int));
    out
}

impl RaftNode {
    /// What the node knows of the term at `index`.
    fn known_term<S: RaftStorage>(&self, storage: &S, index: LogIndex) -> (r: Result<
        Option<Term>,
        RaftError,
    >)
        ensures
            r matches Ok(t) ==> t == local_term(self@, storage.model(), index.0 as int),
            r matches Err(e) ==> S::fails_with(e),
            self@.arena.lookup(index.0 as int) is Some ==> r is Ok,
    {
        match self.log_metadata.get_term(index) {
            Some(t) => Ok(Some(t)),
            None => storage.term_at(index),
        }
    }

    /// Whether the log agrees with the leader's at `prev`.
    fn prev_matches<S: RaftStorage>(&self, storage: &S, prev: LogIndex, prev_term: Term) -> (r:
        Result<bool, RaftError>)
        ensures
            r matches Ok(b) ==> b == self@.agrees_at(storage.model(), prev.0, prev_term.0),
            r matches Err(e) ==> S::fails_with(e),
            prev.0 == 0 || self@.arena.lookup(prev.0 as int) is Some ==> r is Ok,
    {
        match self.log_metadata.get_term(prev) {
            Some(t) => Ok(t == prev_term),
            None => {
                if prev.0 == 0 {
                    return Ok(true);
                }
                match storage.term_at(prev) {
                    Err(e) => Err(e),
                    Ok(Some(t)) => Ok(t == prev_term),
                    Ok(None) => Ok(
                        (self.cached_last_log.0 == prev && self.cached_last_log.1 == prev_term)
                            || (self.snapshot_boundary.0 == prev && self.snapshot_boundary.1
                            == prev_term),
                    ),
                }
            },
        }
    }

    /// Finds the first entry that is not already in the log, and whether it
    /// contradicts the log. `complaint` is the error for an entry out of place.
    fn scan_entries<S: RaftStorage>(
        &self,
        storage: &S,
        prev: u64,
        entries: &Vec<LogEntry<'_>>,
        complaint: &str,
    ) -> (r: Result<(usize, bool), RaftError>)
        ensures
            match r {
                Ok((f, conflict)) => {
                    &&& f == first_new(self@, storage.model(), prev, records(entries@), 0)
                    &&& f <= entries@.len()
                    &&& !out_of_place(self@, storage.model(), prev, records(entries@))
                    &&& conflict == self@.conflicts(storage.model(), prev, records(entries@))
                },
                Err(e) => entries@.len() > 0 && (S::fails_with(e) || (e.is_protocol(complaint@)
                    && out_of_place(self@, storage.model(), prev, records(entries@)))),
            },
            starts_out_of_place(prev, records(entries@)) ==> (r matches Err(e) && e.is_protocol(
                complaint@,
            )),
    {
        let ghost all = records(entries@);
        let expected_start: u64 = prev.saturating_add(1);
        let mut k: usize = 0;
        while k < entries.len()
            invariant
                k <= entries@.len(),
                all == records(entries@),
                expected_start == capped_sum(prev as nat, 1),
                k > 0 ==> !starts_out_of_place(prev, all),
                first_new(self@, storage.model(), prev, all, 0) == first_new(
                    self@,
                    storage.model(),
                    prev,
                    all,
                    k as int,
                ),
            decreases entries@.len() - k,
        {
            let incoming = &entries[k];
            assert(all[k as int] == incoming@);
            if incoming.index.0 != expected_start.saturating_add(k as u64) {
                return Err(RaftError::Protocol(text(complaint)));
            }
            assert(!starts_out_of_place(prev, all));
            match self.known_term(storage, incoming.index) {
                Err(e) => {
                    return Err(e);
                },
                Ok(Some(t)) => {
                    if t != incoming.term {
                        return Ok((k, true));
                    }
                },
                Ok(None) => {
                    return Ok((k, false));
                },
            }
            k = k + 1;
        }
        Ok((k, false))
    }

    /// Puts the new part of a batch into the log: removes what contradicts it,
    /// appends it, and adopts the last membership change in it at once.
    fn apply_append_entries<S: RaftStorage>(
        &mut self,
        storage: &mut S,
        prev: u64,
        entries: &Vec<LogEntry<'_>>,
        complaint: &str,
    ) -> (r: Result<(), RaftError>)
        requires
            !old(self)@.leads(),
        ensures
            match r {
                Ok(()) => {
                    let stored = old(storage).model();
                    &&& !out_of_place(old(self)@, stored, prev, records(entries@))
                    &&& final(self)@ == old(self)@.extended(stored, prev, records(entries@))
                    &&& final(storage).model() == old(self)@.extended_storage(
                        stored,
                        prev,
                        records(entries@),
                    )
                },
                Err(e) => {
                    let stored = old(storage).model();
                    &&& batch_failure(
                        e,
                        old(self)@,
                        stored,
                        prev,
                        records(entries@),
                        final(self)@,
                        final(storage).model(),
                    )
                    &&& S::fails_with(e) || if out_of_place(
                        old(self)@,
                        stored,
                        prev,
                        records(entries@),
                    ) {
                        e.is_protocol(complaint@) && final(self)@ == old(self)@
                    } else {
                        is_empty_change(e) && leaves_nobody(
                            old(self)@,
                            stored,
                            prev,
                            records(entries@),
                        )
                    }
                },
            },
            entries@.len() == 0 ==> r is Ok,
            starts_out_of_place(prev, records(entries@)) ==> {
                &&& r matches Err(e) && e.is_protocol(complaint@)
                &&& final(self)@ == old(self)@
                &&& final(storage).model() == old(storage).model()
            },
    {
        let ghost all = records(entries@);
        let (from, conflict): (usize, bool) = match self.scan_entries(
            storage,
            prev,
            entries,
            complaint,
        ) {
            Err(e) => {
                return Err(e);
            },
            Ok(found) => found,
        };
        if from >= entries.len() {
            assert(storage.model() =~= self@.extended_storage(storage.model(), prev, all));
            return Ok(());
        }
        if conflict {
            match self.storage_truncate(storage, entries[from].index) {
                Err(e) => {
                    return Err(e);
                },
                Ok(()) => {},
            }
        }
        let ghost cut = self@.arena;
        let fresh = tail_of(entries, from);
        match storage.append_entries(&fresh) {
            Err(e) => {
                return Err(e);
            },
            Ok(()) => {},
        }
        let ghost new = records(fresh@);
        let ghost before = self@;
        let mut i: usize = 0;
        assert(new.take(0) =~= Seq::empty());
        while i < fresh.len()
            invariant
                i <= fresh@.len(),
                new == records(fresh@),
                self@ == (NodeModel { arena: arena_with(cut, new.take(i as int)), ..before }),
            decreases fresh@.len() - i,
        {
            let e = &fresh[i];
            assert(new.take(i + 1).drop_last() =~= new.take(i as int));
            assert(new.take(i + 1).last() == e@);
            self.log_metadata.append(e.index, e.term);
            i = i + 1;
        }
        assert(new.take(i as int) =~= new);
        let last = &fresh[fresh.len() - 1];
        self.cached_last_log = (last.index, last.term);
        assert(storage.model() =~= old(self)@.extended_storage(
            old(storage).model(),
            prev,
            all,
        ));
        match find_latest_config(entries, from) {
            Some(change) => self.apply_config_change(storage, &change),
            None => Ok(()),
        }
    }

    /// Answers an append request whose entries are `entries`.
    fn append_request<S: RaftStorage>(
        &mut self,
        storage: &mut S,
        msg: &AppendEntries,
        entries: &Vec<LogEntry<'_>>,
        complaint: &str,
        now_ms: u64,
    ) -> (r: Result<AppendEntriesResp, RaftError>)
        ensures
            append_outcome(
                old(self)@,
                old(storage).model(),
                *msg,
                records(entries@),
                now_ms,
                r,
                final(self)@,
                final(storage).model(),
            ),
            memory_outcome(
                old(self)@,
                *msg,
                records(entries@),
                complaint@,
                now_ms,
                r,
                final(self)@,
            ),
            r matches Err(e) ==> S::fails_with(e) || append_fault(
                old(self)@,
                old(storage).model(),
                *msg,
                records(entries@),
                complaint@,
                now_ms,
                e,
                final(self)@,
            ),
    {
        if msg.term < self.hard_state.current_term.0 {
            return Ok(
                append_response(
                    self.hard_state.current_term,
                    false,
                    self.cached_last_log.0.0,
                    msg._pad,
                ),
            );
        }
        if msg.term > self.hard_state.current_term.0 {
            match self.step_down(storage, Term(msg.term)) {
                Err(e) => {
                    return Err(e);
                },
                Ok(()) => {},
            }
        }
        self.soft_state.role = Role::Follower;
        self.soft_state.is_leader = false;
        self.soft_state.leader_id = Some(PeerId(msg.leader_id));
        self.last_leader_contact = Some(now_ms);
        assert(self@ == old(self)@.following(*msg, now_ms));
        let prev_ok: bool = match self.prev_matches(
            storage,
            LogIndex(msg.prev_log_index),
            Term(msg.prev_log_term),
        ) {
            Err(e) => {
                return Err(e);
            },
            Ok(b) => b,
        };
        if !prev_ok {
            let below: u64 = msg.prev_log_index.saturating_sub(1);
            let hint: u64 = if self.cached_last_log.0.0 < below {
                self.cached_last_log.0.0
            } else {
                below
            };
            return Ok(
                append_response(self.hard_state.current_term, false, hint, msg._pad),
            );
        }
        match self.apply_append_entries(storage, msg.prev_log_index, entries, complaint) {
            Err(e) => {
                return Err(e);
            },
            Ok(()) => {},
        }
        let last: u64 = self.cached_last_log.0.0;
        let reach: u64 = if msg.leader_commit < last {
            msg.leader_commit
        } else {
            last
        };
        if reach > self.soft_state.commit_index.0 {
            self.set_commit_index(LogIndex(reach));
        }
        Ok(append_response(self.hard_state.current_term, true, last, msg._pad))
    }

    /// Answers an append request.
    pub fn handle_append_entries<S: RaftStorage>(
        &mut self,
        storage: &mut S,
        msg: &AppendEntries,
        payload: &[u8],
        now_ms: u64,
    ) -> (r: Result<AppendEntriesResp, RaftError>)
        ensures
            append_outcome(
                old(self)@,
                old(storage).model(),
                *msg,
                entries_in(payload@, msg.entry_count as nat),
                now_ms,
                r,
                final(self)@,
                final(storage).model(),
            ),
            memory_outcome(
                old(self)@,
                *msg,
                entries_in(payload@, msg.entry_count as nat),
                "AppendEntries entries not contiguous with prev_log_index"@,
                now_ms,
                r,
                final(self)@,
            ),
            r matches Err(e) ==> S::fails_with(e) || append_fault(
                old(self)@,
                old(storage).model(),
                *msg,
                entries_in(payload@, msg.entry_count as nat),
                "AppendEntries entries not contiguous with prev_log_index"@,
                now_ms,
                e,
                final(self)@,
            ),
    {
        let entries = AppendEntriesEntryIter::new(payload, msg.entry_count as usize).collect();
        self.append_request(
            storage,
            msg,
            &entries,
            "AppendEntries entries not contiguous with prev_log_index",
            now_ms,
        )
    }

    /// Answers an append request in the seeded form.
    pub fn handle_append_entries_seeded<S: RaftStorage>(
        &mut self,
        storage: &mut S,
        msg: &AppendEntries,
        headers: &[u8],
        payloads: &[u8],
        now_ms: u64,
    ) -> (r: Result<AppendEntriesResp, RaftError>)
        requires
            headers@.len() == msg.entry_count * ENTRY_HEADER_SIZE,
            seeded_total(headers@, msg.entry_count as nat)
                == payloads@.len(),
        ensures
            append_outcome(
                old(self)@,
                old(storage).model(),
                *msg,
                seeded_entries(headers@, payloads@, msg.entry_count as nat),
                now_ms,
                r,
                final(self)@,
                final(storage).model(),
            ),
            memory_outcome(
                old(self)@,
                *msg,
                seeded_entries(headers@, payloads@, msg.entry_count as nat),
                "seeded AppendEntries entries not contiguous with prev_log_index"@,
                now_ms,
                r,
                final(self)@,
            ),
            r matches Err(e) ==> S::fails_with(e) || append_fault(
                old(self)@,
                old(storage).model(),
                *msg,
                seeded_entries(headers@, payloads@, msg.entry_count as nat),
                "seeded AppendEntries entries not contiguous with prev_log_index"@,
                now_ms,
                e,
                final(self)@,
            ),
    {
        let entries = collect_seeded(headers, payloads);
        assert(records(entries@) == seeded_entries(
            headers@,
            payloads@,
            msg.entry_count as nat,
        ));
        self.append_request(
            storage,
            msg,
            &entries,
            "seeded AppendEntries entries not contiguous with prev_log_index",
            now_ms,
        )
    }
}

} // verus!
