//! Log compaction: once enough has been applied since the last snapshot, the
//! state machine is captured and the log's prefix is dropped, but never an
//! entry that a voter may still need.

use vstd::prelude::*;

use super::metrics::{bumped, RaftMetricsSnapshot};
use super::progress::PendingModel;
use super::raft_node::{NodeModel, RaftNode};
use super::replication::shared::is_missing_term;
use super::snapshot::with_snapshot;
use crate::entry::EntryRecord;
use crate::error::RaftError;
use crate::state::{Role, SnapshotMeta};
use crate::traits::{is_tip, log_from, refused_cleanly, RaftStorage, StateMachine, StorageModel};
use crate::types::{LogIndex, PeerId, Term};

verus! {

impl NodeModel {
    /// Whether enough has been applied since the last snapshot. A threshold of
    /// 0 never fires.
    pub open spec fn compaction_due(self) -> bool {
        ||| self.limits.compaction_threshold_entries != 0 && self.debt_entries
            >= self.limits.compaction_threshold_entries
        ||| self.limits.compaction_threshold_bytes != 0 && self.debt_bytes
            >= self.limits.compaction_threshold_bytes
    }

    /// The least of `bound` and what the others of `peers` are known to have.
    pub open spec fn lowest_match(self, peers: Seq<PeerId>, bound: u64) -> u64
        decreases peers.len(),
    {
        if peers.len() == 0 {
            bound
        } else {
            let rest = self.lowest_match(peers.drop_last(), bound);
            let p = peers.last();
            if p != self.node_id && self.ack_of(p) < rest {
                self.ack_of(p)
            } else {
                rest
            }
        }
    }

    /// What has been applied here and, on a leader, has reached every voter.
    pub open spec fn settled_everywhere(self) -> u64 {
        if self.leads() {
            self.lowest_match(self.peers, self.last_applied.0)
        } else {
            self.last_applied.0
        }
    }

    /// Where a compaction cuts the log: a margin of recent entries is kept.
    pub open spec fn compaction_horizon(self) -> u64 {
        if self.settled_everywhere() < self.limits.compaction_min_retain {
            0
        } else {
            (self.settled_everywhere() - self.limits.compaction_min_retain) as u64
        }
    }

    /// The node with its compaction debt settled.
    pub open spec fn debt_settled(self) -> NodeModel {
        NodeModel { debt_entries: 0, debt_bytes: 0, ..self }
    }

    /// The node after a compaction at `meta`.
    pub open spec fn compacted(self, meta: SnapshotMeta) -> NodeModel {
        NodeModel {
            boundary: (meta.last_included_index, meta.last_included_term),
            counters: RaftMetricsSnapshot {
                log_compactions: bumped(self.counters.log_compactions),
                ..self.counters
            },
            ..self.debt_settled()
        }
    }

    /// Whether a compaction may run now: it is due, no inbound transfer is
    /// under way, and something has been applied.
    pub open spec fn may_compact(self) -> bool {
        &&& self.compaction_due()
        &&& self.pending == Map::<PeerId, PendingModel>::empty()
        &&& self.last_applied.0 != 0
    }

    /// Whether the saved snapshot already covers everything applied.
    pub open spec fn covered_by(self, stored: StorageModel) -> bool {
        stored.snapshot matches Some((meta, _)) && meta.last_included_index.0
            >= self.last_applied.0
    }
}

/// The log without what is before `up_to`; an `up_to` of 0 leaves it alone.
pub open spec fn trimmed(log: Map<int, EntryRecord>, up_to: u64) -> Map<int, EntryRecord> {
    if up_to > 0 {
        log_from(log, up_to as int)
    } else {
        log
    }
}

/// How a compaction came out.
pub open spec fn compaction_outcome<M: StateMachine>(
    before: NodeModel,
    stored: StorageModel,
    machine: M,
    up_to: u64,
    r: Result<SnapshotMeta, RaftError>,
    after: NodeModel,
    stored_after: StorageModel,
) -> bool {
    let at = before.last_applied;
    match r {
        Ok(meta) => {
            &&& meta.last_included_index == at
            &&& match before.known_term_at(at.0) {
                Some(t) => meta.last_included_term == t && after == before.compacted(meta),
                None => stored.term_of(at.0 as int) == Some(meta.last_included_term) && after
                    == before.remembering(at.0, meta.last_included_term).compacted(meta),
            }
            &&& stored_after.snapshot matches Some((m, bytes)) && m == meta
                && machine.captured_by(bytes)
            &&& stored_after.hard_state == stored.hard_state
            &&& stored_after.log == trimmed(stored.log, up_to)
            &&& up_to == 0 ==> stored_after.tip == stored.tip
            &&& up_to > 0 ==> is_tip(
                stored_after.tip,
                stored_after.log,
                stored_after.snapshot,
            )
        },
        Err(_) => after == (NodeModel {
            arena: after.arena,
            boundary: after.boundary,
            debt_entries: after.debt_entries,
            debt_bytes: after.debt_bytes,
            ..before
        }),
    }
}

/// What failed in a compaction, and how far it had come by then: the term of the
/// last applied entry could not be found, the state machine could not be captured,
/// the snapshot could not be saved, or it was saved and the log could not be cut.
pub open spec fn compaction_failure<S: RaftStorage, M: StateMachine>(
    e: RaftError,
    before: NodeModel,
    stored: StorageModel,
    machine: M,
    up_to: u64,
    after: NodeModel,
    stored_after: StorageModel,
) -> bool {
    let at = before.last_applied;
    let known = before.known_term_at(at.0);
    let found = stored.term_of(at.0 as int);
    let term = match known {
        Some(t) => t,
        None => found->0,
    };
    let ready = match known {
        Some(_) => before,
        None => before.remembering(at.0, term),
    };
    let meta = SnapshotMeta { last_included_index: at, last_included_term: term };
    ||| {
        &&& known is None
        &&& S::fails_with(e) || (found is None && is_missing_term(e, at.0))
        &&& after == before
        &&& stored_after == stored
    }
    ||| {
        &&& known is Some || found is Some
        &&& after == ready
        &&& (M::fails_with(e) && stored_after == stored) || (S::fails_with(e) && refused_cleanly(
            e,
            stored,
            stored_after,
        ))
    }
    ||| {
        &&& known is Some || found is Some
        &&& up_to > 0
        &&& S::fails_with(e)
        &&& after == (NodeModel {
            boundary: (meta.last_included_index, meta.last_included_term),
            ..ready.debt_settled()
        })
        &&& exists|bytes: Seq<u8>| #[trigger]
            machine.captured_by(bytes) && refused_cleanly(
                e,
                with_snapshot(stored, meta, bytes),
                stored_after,
            )
    }
}

/// How a call came out that compacts only where that is due. Where the saved
/// snapshot already covers everything applied, only the debt is settled.
pub open spec fn maybe_compact_outcome<M: StateMachine>(
    before: NodeModel,
    stored: StorageModel,
    machine: M,
    r: Result<Option<SnapshotMeta>, RaftError>,
    after: NodeModel,
    stored_after: StorageModel,
) -> bool {
    if !before.may_compact() {
        &&& r == Ok::<Option<SnapshotMeta>, RaftError>(None)
        &&& after == before
        &&& stored_after == stored
    } else if before.covered_by(stored) {
        &&& r matches Ok(done) ==> done is None && after == before.debt_settled()
        &&& r is Err ==> after == before
        &&& stored_after == stored
    } else {
        &&& r matches Ok(done) ==> done is Some
        &&& compaction_outcome(
            before,
            stored,
            machine,
            before.compaction_horizon(),
            match r {
                Ok(done) => Ok(done->0),
                Err(e) => Err(e),
            },
            after,
            stored_after,
        )
    }
}

impl RaftNode {
    /// Captures the state machine at the applied cursor, makes that durable,
    /// and drops the log before `up_to`.
    pub fn compact_with_horizon<S: RaftStorage, M: StateMachine>(
        &mut self,
        storage: &mut S,
        machine: &M,
        up_to: LogIndex,
    ) -> (r: Result<SnapshotMeta, RaftError>)
        requires
            up_to.0 <= old(self)@.last_applied.0,
        ensures
            compaction_outcome(
                old(self)@,
                old(storage).model(),
                *machine,
                up_to.0,
                r,
                final(self)@,
                final(storage).model(),
            ),
            r matches Err(e) ==> compaction_failure::<S, M>(
                e,
                old(self)@,
                old(storage).model(),
                *machine,
                up_to.0,
                final(self)@,
                final(storage).model(),
            ),
    {
        let last_applied = self.last_applied;
        let term: Term = match self.term_at(storage, last_applied) {
            Err(e) => {
                return Err(e);
            },
            Ok(term) => term,
        };
        let meta = SnapshotMeta { last_included_index: last_applied, last_included_term: term };
        let bytes: Vec<u8> = match machine.snapshot() {
            Err(e) => {
                return Err(e);
            },
            Ok(bytes) => bytes,
        };
        match storage.save_snapshot(&meta, &bytes) {
            Err(e) => {
                return Err(e);
            },
            Ok(()) => {},
        }
        assert(storage.model() =~= with_snapshot(old(storage).model(), meta, bytes@));
        self.snapshot_boundary = (meta.last_included_index, meta.last_included_term);
        self.compaction_debt_entries = 0;
        self.compaction_debt_bytes = 0;
        if up_to.0 > 0 {
            match storage.truncate_before(up_to) {
                Err(e) => {
                    return Err(e);
                },
                Ok(()) => {},
            }
        }
        self.metrics.inc_log_compactions();
        Ok(meta)
    }

    /// What has been applied here and, on a leader, has reached every voter.
    fn settled_everywhere(&self) -> (r: u64)
        ensures
            r == self@.settled_everywhere(),
    {
        let mut horizon: u64 = self.last_applied.0;
        if !self.is_leader() {
            return horizon;
        }
        let mut i: usize = 0;
        assert(self.config.peers@.take(0) =~= Seq::empty());
        while i < self.config.peers.len()
            invariant
                i <= self.config.peers@.len(),
                horizon == self@.lowest_match(
                    self.config.peers@.take(i as int),
                    self.last_applied.0,
                ),
            decreases self.config.peers@.len() - i,
        {
            assert(self.config.peers@.take(i + 1).drop_last() =~= self.config.peers@.take(
                i as int,
            ));
            let peer = self.config.peers[i];
            if peer != self.config.node_id {
                let matched: u64 = match self.peer_progress.get(peer) {
                    Some(p) => p.match_index.0,
                    None => 0,
                };
                if matched < horizon {
                    horizon = matched;
                }
            }
            i = i + 1;
        }
        assert(self.config.peers@.take(i as int) =~= self.config.peers@);
        horizon
    }

    /// Compacts the log if that is due.
    pub fn maybe_compact<S: RaftStorage, M: StateMachine>(
        &mut self,
        storage: &mut S,
        machine: &M,
    ) -> (r: Result<Option<SnapshotMeta>, RaftError>)
        ensures
            maybe_compact_outcome(
                old(self)@,
                old(storage).model(),
                *machine,
                r,
                final(self)@,
                final(storage).model(),
            ),
            r matches Err(e) ==> (S::fails_with(e) && final(self)@ == old(self)@
                && final(storage).model() == old(storage).model()) || (!old(self)@.covered_by(
                old(storage).model(),
            ) && compaction_failure::<S, M>(
                e,
                old(self)@,
                old(storage).model(),
                *machine,
                old(self)@.compaction_horizon(),
                final(self)@,
                final(storage).model(),
            )),
    {
        let limits = self.config.limits;
        let by_entries: bool = limits.compaction_threshold_entries != 0
            && self.compaction_debt_entries >= limits.compaction_threshold_entries;
        let by_bytes: bool = limits.compaction_threshold_bytes != 0 && self.compaction_debt_bytes
            >= limits.compaction_threshold_bytes;
        if !by_entries && !by_bytes {
            return Ok(None);
        }
        proof {
            assert(self@.pending.dom() =~= self.pending_snapshots@.dom());
            if self.pending_snapshots@ == Map::<PeerId, super::progress::PendingSnapshot>::empty() {
                assert(self@.pending =~= Map::<PeerId, PendingModel>::empty());
            } else {
                if self@.pending == Map::<PeerId, PendingModel>::empty() {
                    assert(self.pending_snapshots@ =~= Map::<
                        PeerId,
                        super::progress::PendingSnapshot,
                    >::empty());
                }
            }
        }
        if !self.pending_snapshots.is_empty() {
            return Ok(None);
        }
        if self.last_applied.0 == 0 {
            return Ok(None);
        }
        match storage.load_snapshot_meta() {
            Err(e) => {
                return Err(e);
            },
            Ok(Some(existing)) => {
                if existing.last_included_index.0 >= self.last_applied.0 {
                    self.compaction_debt_entries = 0;
                    self.compaction_debt_bytes = 0;
                    return Ok(None);
                }
            },
            Ok(None) => {},
        }
        let settled: u64 = self.settled_everywhere();
        let up_to = LogIndex(settled.saturating_sub(limits.compaction_min_retain));
        proof {
            lemma_lowest_match(self@, self@.peers, self@.last_applied.0);
        }
        match self.compact_with_horizon(storage, machine, up_to) {
            Ok(meta) => Ok(Some(meta)),
            Err(e) => Err(e),
        }
    }
}

/// The lowest match is at most the bound, and at most what any of the others
/// has.
proof fn lemma_lowest_match(m: NodeModel, peers: Seq<PeerId>, bound: u64)
    ensures
        m.lowest_match(peers, bound) <= bound,
        forall|p: PeerId| #[trigger]
            peers.contains(p) && p != m.node_id ==> m.lowest_match(peers, bound) <= m.ack_of(p),
    decreases peers.len(),
{
    if peers.len() > 0 {
        let front = peers.drop_last();
        lemma_lowest_match(m, front, bound);
        assert forall|p: PeerId| #[trigger] peers.contains(p) && p != m.node_id implies
            m.lowest_match(peers, bound) <= m.ack_of(p) by {
            let i = choose|i: int| 0 <= i < peers.len() && peers[i] == p;
            if i < front.len() {
                assert(front[i] == p);
                assert(front.contains(p));
            }
        }
    }
}

/// A compaction strands nobody: it keeps every entry after what any voter is
/// known to have, every entry that is not applied yet, and the last applied
/// entry itself.
pub proof fn law_compaction_strands_nobody<M: StateMachine>(
    before: NodeModel,
    stored: StorageModel,
    machine: M,
    meta: SnapshotMeta,
    after: NodeModel,
    stored_after: StorageModel,
    index: int,
    voter: PeerId,
)
    requires
        compaction_outcome(
            before,
            stored,
            machine,
            before.compaction_horizon(),
            Ok(meta),
            after,
            stored_after,
        ),
        stored.log.dom().contains(index),
        index >= before.last_applied.0 || (before.leads() && before.peers.contains(voter) && voter
            != before.node_id && index >= before.ack_of(voter)),
    ensures
        stored_after.log.dom().contains(index),
        stored_after.log[index] == stored.log[index],
{
    lemma_lowest_match(before, before.peers, before.last_applied.0);
}

/// A compaction leaves the tip of the log where it was, and with it where the node
/// takes it to be: what it drops lies before the last applied entry, which is
/// still in the log.
pub proof fn law_compaction_keeps_the_tip<M: StateMachine>(
    before: NodeModel,
    stored: StorageModel,
    machine: M,
    up_to: u64,
    meta: SnapshotMeta,
    after: NodeModel,
    stored_after: StorageModel,
)
    requires
        compaction_outcome(before, stored, machine, up_to, Ok(meta), after, stored_after),
        up_to <= before.last_applied.0,
        stored.log.dom().contains(before.last_applied.0 as int),
        is_tip(stored.tip, stored.log, stored.snapshot),
    ensures
        stored_after.tip == stored.tip,
        is_tip(stored_after.tip, stored_after.log, stored_after.snapshot),
        after.last_log == before.last_log,
{
    let at = before.last_applied.0 as int;
    assert(stored_after.log.dom().contains(at));
    assert(stored_after.log.dom().contains(stored.tip.0.0 as int));
}

/// A compaction covers exactly what has been applied, so nothing uncommitted is
/// ever part of a snapshot.
pub proof fn law_snapshots_hold_committed_state<M: StateMachine>(
    before: NodeModel,
    stored: StorageModel,
    machine: M,
    up_to: u64,
    meta: SnapshotMeta,
    after: NodeModel,
    stored_after: StorageModel,
)
    requires
        before.wf(),
        compaction_outcome(before, stored, machine, up_to, Ok(meta), after, stored_after),
    ensures
        meta.last_included_index == before.last_applied,
        meta.last_included_index.0 <= before.soft.commit_index.0,
        after.wf(),
        after.known_term_at(meta.last_included_index.0) is Some,
{
}

/// A compaction drops what nobody needs: on a node that does not lead, every entry that
/// lies further behind the last applied one than the margin to keep, and on a leader
/// every such entry that lies as far behind what each other voter is known to have.
/// Nothing else goes.
pub proof fn law_compaction_drops_what_nobody_needs<M: StateMachine>(
    before: NodeModel,
    stored: StorageModel,
    machine: M,
    meta: SnapshotMeta,
    after: NodeModel,
    stored_after: StorageModel,
    index: int,
)
    requires
        maybe_compact_outcome(before, stored, machine, Ok(Some(meta)), after, stored_after),
        index > 0,
    ensures
        ({
            let margin = before.limits.compaction_min_retain as int;
            let applied = index + margin < before.last_applied.0;
            let everywhere = forall|p: PeerId|
                p != before.node_id && #[trigger] before.peers.contains(p)
                    ==> before.progress.dom().contains(p) && index + margin
                    < before.progress[p].match_index.0;
            let needless = applied && (before.soft.role != Role::Leader || everywhere);
            &&& needless ==> !stored_after.log.dom().contains(index)
            &&& !needless && stored.log.dom().contains(index) ==> stored_after.log.dom().contains(
                index,
            ) && stored_after.log[index] == stored.log[index]
            &&& stored_after.log.dom().contains(index) ==> stored.log.dom().contains(index)
        }),
{
    let peers = before.peers;
    let bound = before.last_applied.0;
    lemma_lowest_match(before, peers, bound);
    lemma_lowest_is_somebodys(before, peers, bound);
    let margin = before.limits.compaction_min_retain as int;
    let lowest = before.lowest_match(peers, bound);
    if before.leads() && index + margin < lowest {
        assert forall|p: PeerId| p != before.node_id && #[trigger] peers.contains(p) implies
            before.progress.dom().contains(p) && index + margin
            < before.progress[p].match_index.0 by {
            assert(before.ack_of(p) >= lowest);
        }
    }
}

/// The lowest match is the bound, or what some other voter has.
proof fn lemma_lowest_is_somebodys(m: NodeModel, peers: Seq<PeerId>, bound: u64)
    ensures
        m.lowest_match(peers, bound) == bound || exists|p: PeerId| #[trigger]
            peers.contains(p) && p != m.node_id && m.ack_of(p) == m.lowest_match(peers, bound),
    decreases peers.len(),
{
    if peers.len() > 0 {
        let front = peers.drop_last();
        lemma_lowest_is_somebodys(m, front, bound);
        let rest = m.lowest_match(front, bound);
        assert(peers[peers.len() - 1] == peers.last());
        assert(peers.contains(peers.last()));
        if m.lowest_match(peers, bound) == rest && rest != bound {
            let p = choose|p: PeerId| #[trigger]
                front.contains(p) && p != m.node_id && m.ack_of(p) == rest;
            let i = choose|i: int| 0 <= i < front.len() && front[i] == p;
            assert(peers[i] == p);
            assert(peers.contains(p));
        }
    }
}

/// A compaction runs once as many entries, or as many bytes, were applied since the last
/// one as the limits say, a limit of 0 being none, unless a snapshot is coming in,
/// nothing was applied, or the saved snapshot covers all of it. It covers what was
/// applied, settles the debt and is counted; otherwise nothing is cut.
pub proof fn law_compaction_runs_when_due<M: StateMachine>(
    before: NodeModel,
    stored: StorageModel,
    machine: M,
    done: Option<SnapshotMeta>,
    after: NodeModel,
    stored_after: StorageModel,
)
    requires
        maybe_compact_outcome(before, stored, machine, Ok(done), after, stored_after),
    ensures
        ({
            let limits = before.limits;
            let due = (limits.compaction_threshold_entries > 0 && before.debt_entries
                >= limits.compaction_threshold_entries) || (limits.compaction_threshold_bytes > 0
                && before.debt_bytes >= limits.compaction_threshold_bytes);
            let coming_in = before.pending != Map::<PeerId, PendingModel>::empty();
            let covered = stored.snapshot is Some && (stored.snapshot->0).0.last_included_index.0
                >= before.last_applied.0;
            &&& done is Some <==> due && !coming_in && before.last_applied.0 > 0 && !covered
            &&& done is None ==> stored_after == stored && after.boundary == before.boundary
            &&& done matches Some(meta) ==> {
                &&& meta.last_included_index == before.last_applied
                &&& stored_after.snapshot is Some && (stored_after.snapshot->0).0 == meta
                &&& after.boundary == (meta.last_included_index, meta.last_included_term)
                &&& after.debt_entries == 0 && after.debt_bytes == 0
                &&& before.counters.log_compactions < u64::MAX ==> after.counters.log_compactions
                    == before.counters.log_compactions + 1
                &&& after.soft == before.soft && after.hard == before.hard
                &&& after.last_applied == before.last_applied
            }
            &&& !due ==> after == before
        }),
{
}

} // verus!
