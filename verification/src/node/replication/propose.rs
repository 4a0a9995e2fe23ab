//! Client proposals.

use vstd::prelude::*;

use super::handler::arena_with;
use super::response::AppendVerdict;
use super::shared::{append_request_spec, commit_outcome, is_missing_term};
use crate::entry::{EntryPayload, EntryRecord, LogEntry};
use crate::error::RaftError;
use crate::node::election::others;
use crate::node::progress::{AppendAttemptState, PeerMap, PeerProgress};
use crate::node::quorum::{contains, quorum, quorum_spec};
use crate::node::raft_node::{step_down_outcome, NodeModel, RaftNode};
use crate::protocol::codec::wire::{AppendEntries, AppendEntriesResp};
use crate::protocol::message::records;
use crate::text::text;
use crate::traits::{log_with, refused_cleanly, tip_with, RaftStorage, StorageModel};
use crate::types::{LogIndex, PeerId, Term};

verus! {

/// When a batch goes out as many slices, and when as one buffer.
#[derive(Clone, Copy, Debug)]
pub struct VecTuning {
    /// Decides regardless of the batch.
    pub force: Option<bool>,
    /// The most slices one write may have.
    pub iov_max: usize,
    /// The least payload that is worth a slice, in bytes.
    pub min_entry: usize,
    /// The least batch that is worth slices, in bytes.
    pub min_total: usize,
}

impl Default for VecTuning {
    fn default() -> (r: Self)
        ensures
            r.force is None,
            r.iov_max == 4096,
            r.min_entry == 4096,
            r.min_total == 64 * 1024,
    {
        VecTuning { force: None, iov_max: 4096, min_entry: 4096, min_total: 64 * 1024 }
    }
}

/// The payload bytes of a batch.
pub open spec fn payload_total(entries: Seq<EntryRecord>) -> nat
    decreases entries.len(),
{
    if entries.len() == 0 {
        0
    } else {
        payload_total(entries.drop_last()) + entries.last().payload.len()
    }
}

/// Whether a batch goes out as slices: they fit one write, no payload is small,
/// and together they are large.
pub open spec fn worth_slices(t: VecTuning, entries: Seq<EntryRecord>) -> bool {
    match t.force {
        Some(forced) => forced,
        None => {
            &&& 2 * entries.len() + 4 <= t.iov_max
            &&& forall|i: int| 0 <= i < entries.len() ==> (#[trigger] entries[i]).payload.len()
                >= t.min_entry
            &&& payload_total(entries) >= t.min_total
        },
    }
}

/// Whether a batch goes out as slices.
pub fn should_use_vectored(t: &VecTuning, entries: &[LogEntry<'_>]) -> (r: bool)
    ensures
        r == worth_slices(*t, records(entries@)),
{
    match t.force {
        Some(forced) => {
            return forced;
        },
        None => {},
    }
    if t.iov_max < 4 || entries.len() > (t.iov_max - 4) / 2 {
        return false;
    }
    let ghost all = records(entries@);
    let mut total: usize = 0;
    let mut i: usize = 0;
    assert(all.take(0) =~= Seq::empty());
    while i < entries.len()
        invariant
            i <= entries@.len(),
            t.force is None,
            all == records(entries@),
            total == if payload_total(all.take(i as int)) > usize::MAX {
                usize::MAX as nat
            } else {
                payload_total(all.take(i as int))
            },
            forall|j: int| 0 <= j < i ==> (#[trigger] all[j]).payload.len() >= t.min_entry,
        decreases entries@.len() - i,
    {
        let len: usize = entries[i].payload.0.len();
        assert(all[i as int].payload.len() == len);
        if len < t.min_entry {
            return false;
        }
        assert(all.take(i + 1).drop_last() =~= all.take(i as int));
        total = total.saturating_add(len);
        i = i + 1;
    }
    assert(all.take(i as int) =~= all);
    total >= t.min_total
}

/// The entries that a leader makes of `payloads`: its current term, and the
/// indexes right after its tip.
pub open spec fn proposed(m: NodeModel, payloads: Seq<&[u8]>) -> Seq<EntryRecord> {
    Seq::new(
        payloads.len(),
        |i: int|
            EntryRecord {
                term: m.hard.current_term,
                index: LogIndex((m.last_log.0.0 + 1 + i) as u64),
                payload: payloads[i]@,
            },
    )
}

impl NodeModel {
    /// The leader with `entries` at its tip.
    pub open spec fn with_proposed(self, entries: Seq<EntryRecord>) -> NodeModel {
        NodeModel {
            arena: arena_with(self.arena, entries),
            last_log: (entries.last().index, self.hard.current_term),
            ..self
        }
    }

    /// The leader with its bookkeeping started, if it was not.
    pub open spec fn with_progress_started(self, now_ms: u64) -> NodeModel {
        if self.progress == Map::<PeerId, PeerProgress>::empty() {
            self.with_leader_progress(now_ms)
        } else {
            self
        }
    }

    /// Everyone that the leader replicates to: the other voters, then the
    /// learners.
    pub open spec fn replication_targets(self) -> Seq<PeerId> {
        others(self.peers, self.node_id) + others(self.learners, self.node_id)
    }
}

/// A proposal while its acks come in.
pub struct ProposeGather {
    /// The requests under way.
    pub pending: PeerMap<AppendAttemptState>,
    /// Voters that have the batch, the leader included.
    pub accepted: usize,
    /// Acks that are needed outside of a transition.
    pub needed: usize,
    /// The last entry of the batch.
    pub last_index: LogIndex,
    /// The term in which the batch was appended.
    pub term: Term,
}

/// What a [`ProposeGather`] stands for.
#[verifier::ext_equal]
pub struct GatherModel {
    pub pending: Map<PeerId, AppendAttemptState>,
    pub accepted: nat,
    pub needed: nat,
    pub last_index: LogIndex,
    pub term: Term,
}

impl View for ProposeGather {
    type V = GatherModel;

    open spec fn view(&self) -> GatherModel {
        GatherModel {
            pending: self.pending@,
            accepted: self.accepted as nat,
            needed: self.needed as nat,
            last_index: self.last_index,
            term: self.term,
        }
    }
}

/// The requests that went out to `sent`, each once, up to `last_index`.
pub open spec fn first_attempts(sent: Seq<PeerId>, last_index: LogIndex) -> Map<
    PeerId,
    AppendAttemptState,
> {
    Map::new(
        |p: PeerId| sent.contains(p),
        |p: PeerId| AppendAttemptState { attempts: 1, sent_last_index: last_index },
    )
}

/// The gathering of acks for a batch that ends at `last_index` and went out to `sent`:
/// the leader has it, and the others are awaited.
pub open spec fn opened_gather(m: NodeModel, last_index: LogIndex, sent: Seq<PeerId>)
    -> GatherModel {
    GatherModel {
        pending: first_attempts(sent, last_index),
        accepted: 1,
        needed: quorum_spec(m.peers.len()),
        last_index,
        term: m.hard.current_term,
    }
}

/// How appending a proposal came out.
pub open spec fn proposal_appended(
    before: NodeModel,
    stored: StorageModel,
    payloads: Seq<&[u8]>,
    r: Result<(), RaftError>,
    after: NodeModel,
    stored_after: StorageModel,
) -> bool {
    match r {
        Ok(()) => {
            &&& after == before.with_proposed(proposed(before, payloads))
            &&& stored_after == (StorageModel {
                log: log_with(stored.log, proposed(before, payloads)),
                tip: tip_with(stored.tip, proposed(before, payloads)),
                ..stored
            })
        },
        Err(e) => after == before && refused_cleanly(e, stored, stored_after),
    }
}

/// How the beginning of a proposal came out.
pub open spec fn proposal_begun(
    before: NodeModel,
    stored: StorageModel,
    payloads: Seq<&[u8]>,
    now_ms: u64,
    r: Result<Seq<EntryRecord>, RaftError>,
    after: NodeModel,
    stored_after: StorageModel,
) -> bool {
    if !before.leads() {
        (r matches Err(e) && before.is_not_leader_error(e)) && after == before && stored_after
            == stored
    } else if before.transferring(now_ms) {
        (r matches Err(RaftError::NotLeader { leader_hint }) && leader_hint == Some(
            crate::types::LeaderHint { leader_id: before.transfer->0.target },
        )) && after == before && stored_after == stored
    } else if payloads.len() == 0 {
        r == Ok::<Seq<EntryRecord>, RaftError>(Seq::empty()) && after == before.window_checked(
            now_ms,
        ) && stored_after == stored
    } else {
        let ready = before.window_checked(now_ms).with_progress_started(now_ms);
        (r matches Ok(entries) ==> entries == proposed(ready, payloads)) && proposal_appended(
            ready,
            stored,
            payloads,
            match r {
                Ok(_) => Ok(()),
                Err(e) => Err(e),
            },
            after,
            stored_after,
        )
    }
}

/// The error for a storage whose tip is shorter than the batch just appended.
pub open spec fn shrunken_log() -> Seq<char> {
    "last_log_position smaller than just-appended batch (prev_log_index underflow)"@
}

/// The index before a batch of `count` entries that ends at `tip`. A tip that is
/// shorter than the batch is corruption.
pub fn before_batch(tip: LogIndex, count: usize) -> (r: Result<LogIndex, RaftError>)
    ensures
        count <= tip.0 ==> r == Ok::<LogIndex, RaftError>(LogIndex((tip.0 - count) as u64)),
        count > tip.0 ==> (r matches Err(RaftError::CorruptLog(m)) && m@ == shrunken_log()),
{
    if (count as u64) > tip.0 {
        return Err(
            RaftError::CorruptLog(
                text(
                    "last_log_position smaller than just-appended batch (prev_log_index underflow)",
                ),
            ),
        );
    }
    Ok(LogIndex(tip.0 - count as u64))
}

/// The records of a successful result.
pub open spec fn result_records(r: Result<Vec<LogEntry<'_>>, RaftError>) -> Result<
    Seq<EntryRecord>,
    RaftError,
> {
    match r {
        Ok(entries) => Ok(records(entries@)),
        Err(e) => Err(e),
    }
}

/// How an append response came out while acks are gathered. A newer term
/// deposes the leader. One from a peer that is not awaited is taken in as usual.
/// One from a peer that is may complete that peer, which counts if it votes, or
/// call for the rest of the batch.
pub open spec fn ack_outcome(
    m: NodeModel,
    stored: StorageModel,
    g: GatherModel,
    from: PeerId,
    resp: AppendEntriesResp,
    r: Result<Option<PeerId>, RaftError>,
    after: NodeModel,
    stored_after: StorageModel,
    g_after: GatherModel,
) -> bool {
    let awaited = g.pending.dom().contains(from);
    let term = Term(resp.term);
    if resp.term > m.hard.current_term.0 {
        &&& g_after == g
        &&& match r {
            Ok(more) => !awaited && more is None && step_down_outcome(
                m,
                stored,
                term,
                Ok(()),
                after,
                stored_after,
            ),
            Err(e) => step_down_outcome(m, stored, term, Err(e), after, stored_after) || (awaited
                && e == (RaftError::TermChanged { current: term }) && step_down_outcome(
                m,
                stored,
                term,
                Ok(()),
                after,
                stored_after,
            )),
        }
    } else {
        &&& stored_after == stored
        &&& if !awaited {
            r == Ok::<Option<PeerId>, RaftError>(None) && after == m.acked_by(from, resp)
                && g_after == g
        } else if !m.progress.dom().contains(from) {
            (r matches Err(RaftError::PeerUnknown(p)) && p == from) && after == m && g_after == g
        } else {
            let state = g.pending[from];
            let verdict = m.verdict(from, g.last_index.0, state, resp);
            &&& after == m.advanced(from, g.last_index.0, state, resp)
            &&& r == Ok::<Option<PeerId>, RaftError>(
                if verdict is Resend {
                    Some(from)
                } else {
                    None
                },
            )
            &&& g_after == if verdict is Completed {
                GatherModel {
                    pending: g.pending.remove(from),
                    accepted: if m.peers.contains(from) {
                        g.accepted + 1
                    } else {
                        g.accepted
                    },
                    ..g
                }
            } else {
                g
            }
        }
    }
}

/// How the end of a proposal came out. Outside of a transition the acks that were
/// counted decide; otherwise, and where they do not suffice, what every voter is known
/// to have.
pub open spec fn finish_outcome<S: RaftStorage>(
    m: NodeModel,
    stored: StorageModel,
    g: GatherModel,
    r: Result<(), RaftError>,
    after: NodeModel,
) -> bool {
    let fast = m.joint is None && m.leads() && m.hard.current_term == g.term && g.accepted
        >= g.needed;
    if fast {
        &&& r is Ok
        &&& after == if g.last_index.0 > m.soft.commit_index.0 {
            m.committed_to(g.last_index)
        } else {
            m
        }
    } else {
        exists|q: Result<(), RaftError>| #[trigger]
            commit_outcome(m, stored, q, after) && (q is Ok ==> r
                == if after.soft.commit_index.0 < g.last_index.0 {
                Err::<(), RaftError>(RaftError::NoQuorum)
            } else {
                Ok::<(), RaftError>(())
            }) && (q matches Err(e) ==> r == Err::<(), RaftError>(e) && S::fails_with(e))
    }
}

impl RaftNode {
    /// Everyone that this leader replicates to.
    pub fn replication_targets(&self) -> (r: Vec<PeerId>)
        ensures
            r@ == self@.replication_targets(),
    {
        let mut out = self.other_voters();
        let mut i: usize = 0;
        let ghost voters = out@;
        proof {
            reveal(Seq::filter);
        }
        assert(self.config.learners@.take(0) =~= Seq::empty());
        assert(out@ =~= voters + others(self.config.learners@.take(0), self@.node_id));
        while i < self.config.learners.len()
            invariant
                i <= self.config.learners@.len(),
                out@ == voters + others(self.config.learners@.take(i as int), self@.node_id),
            decreases self.config.learners@.len() - i,
        {
            proof {
                reveal(Seq::filter);
                assert(self.config.learners@.take(i + 1).drop_last()
                    =~= self.config.learners@.take(i as int));
            }
            let peer = self.config.learners[i];
            if peer != self.config.node_id {
                out.push(peer);
            }
            assert(out@ =~= voters + others(
                self.config.learners@.take(i + 1),
                self@.node_id,
            ));
            i = i + 1;
        }
        assert(self.config.learners@.take(i as int) =~= self.config.learners@);
        out
    }

    /// Appends `payloads` to this leader's log.
    fn append_propose_entries<'a, S: RaftStorage>(
        &mut self,
        storage: &mut S,
        payloads: &[&'a [u8]],
    ) -> (r: Result<Vec<LogEntry<'a>>, RaftError>)
        requires
            old(self)@.last_log.0.0 + payloads@.len() < u64::MAX,
        ensures
            payloads@.len() == 0 ==> {
                &&& r matches Err(RaftError::InvalidPayload(m)) && m@ == "empty payload batch"@
                &&& final(self)@ == old(self)@
                &&& final(storage).model() == old(storage).model()
            },
            payloads@.len() > 0 ==> {
                &&& r matches Ok(entries) ==> records(entries@) == proposed(
                    old(self)@,
                    payloads@,
                )
                &&& proposal_appended(
                    old(self)@,
                    old(storage).model(),
                    payloads@,
                    match r {
                        Ok(_) => Ok(()),
                        Err(e) => Err(e),
                    },
                    final(self)@,
                    final(storage).model(),
                )
                &&& r matches Err(e) ==> S::fails_with(e)
            },
    {
        let mut entries: Vec<LogEntry<'a>> = Vec::new();
        let mut next: u64 = self.cached_last_log.0.0.saturating_add(1);
        let ghost all = proposed(self@, payloads@);
        let mut i: usize = 0;
        while i < payloads.len()
            invariant
                i <= payloads@.len(),
                self@ == old(self)@,
                all == proposed(self@, payloads@),
                self@.last_log.0.0 + payloads@.len() < u64::MAX,
                next == self@.last_log.0.0 + 1 + i,
                records(entries@) =~= all.take(i as int),
            decreases payloads@.len() - i,
        {
            let ghost held = records(entries@);
            entries.push(
                LogEntry {
                    term: self.hard_state.current_term,
                    index: LogIndex(next),
                    payload: EntryPayload(payloads[i]),
                },
            );
            assert(records(entries@) =~= held.push(all[i as int]));
            next = next + 1;
            i = i + 1;
        }
        assert(all.take(i as int) =~= all);
        if entries.len() == 0 {
            return Err(RaftError::InvalidPayload(text("empty payload batch")));
        }
        match storage.append_entries(&entries) {
            Err(e) => {
                return Err(e);
            },
            Ok(()) => {},
        }
        let ghost before = self@;
        let mut j: usize = 0;
        assert(all.take(0) =~= Seq::empty());
        while j < entries.len()
            invariant
                j <= entries@.len(),
                all == records(entries@),
                self@ == (NodeModel {
                    arena: arena_with(before.arena, all.take(j as int)),
                    ..before
                }),
            decreases entries@.len() - j,
        {
            let e = &entries[j];
            assert(all.take(j + 1).drop_last() =~= all.take(j as int));
            assert(all.take(j + 1).last() == e@);
            self.log_metadata.append(e.index, e.term);
            j = j + 1;
        }
        assert(all.take(j as int) =~= all);
        let last = entries[entries.len() - 1].index;
        assert(all.last().index == last);
        self.cached_last_log = (last, self.hard_state.current_term);
        Ok(entries)
    }

    /// Begins a proposal: appends it to this leader's log, ready to be sent.
    /// Nothing is taken while a transfer awaits its outcome.
    pub fn begin_propose<'a, S: RaftStorage>(
        &mut self,
        storage: &mut S,
        payloads: &[&'a [u8]],
        now_ms: u64,
    ) -> (r: Result<Vec<LogEntry<'a>>, RaftError>)
        requires
            old(self)@.last_log.0.0 + payloads@.len() < u64::MAX,
        ensures
            proposal_begun(
                old(self)@,
                old(storage).model(),
                payloads@,
                now_ms,
                result_records(r),
                final(self)@,
                final(storage).model(),
            ),
            r matches Err(e) ==> S::fails_with(e) || !old(self)@.leads() || old(self)@.transferring(
                now_ms,
            ),
    {
        if !self.is_leader() {
            return Err(self.not_leader_error());
        }
        match self.check_transfer_freeze(now_ms) {
            Err(e) => {
                return Err(e);
            },
            Ok(()) => {},
        }
        if payloads.len() == 0 {
            let none: Vec<LogEntry<'a>> = Vec::new();
            assert(records(none@) =~= Seq::empty());
            return Ok(none);
        }
        self.ensure_leader_progress_initialized(now_ms);
        self.append_propose_entries(storage, payloads)
    }

    /// The request that sends a batch just appended. It fails where the storage
    /// does, and where the storage's log has no room for the batch or no entry
    /// before it.
    pub fn initial_request<S: RaftStorage>(&mut self, storage: &S, count: usize) -> (r: Result<
        AppendEntries,
        RaftError,
    >)
        ensures
            match r {
                Ok(req) => {
                    let tip = storage.model().tip.0.0;
                    let prev = (tip - count) as u64;
                    &&& count <= tip
                    &&& match old(self)@.known_term_at(prev) {
                        Some(t) => req == append_request_spec(
                            old(self)@,
                            LogIndex(prev),
                            t,
                            count as nat,
                        ) && final(self)@ == old(self)@,
                        None => exists|t: Term| #[trigger]
                            append_request_spec(old(self)@, LogIndex(prev), t, count as nat)
                                == req && storage.model().term_of(prev as int) == Some(t)
                                && final(self)@ == old(self)@.remembering(prev, t),
                    }
                },
                Err(e) => {
                    let tip = storage.model().tip.0.0;
                    let prev = (tip - count) as u64;
                    &&& final(self)@ == old(self)@
                    &&& S::fails_with(e) || if count > tip {
                        e matches RaftError::CorruptLog(m) && m@ == shrunken_log()
                    } else {
                        &&& old(self)@.known_term_at(prev) is None
                        &&& storage.model().term_of(prev as int) is None
                        &&& is_missing_term(e, prev)
                    }
                },
            },
    {
        let tip: LogIndex = match storage.last_log_position() {
            Err(e) => {
                return Err(e);
            },
            Ok((index, _)) => index,
        };
        let prev: LogIndex = match before_batch(tip, count) {
            Err(e) => {
                return Err(e);
            },
            Ok(index) => index,
        };
        let term: Term = match self.term_at(storage, prev) {
            Err(e) => {
                return Err(e);
            },
            Ok(t) => t,
        };
        let req = AppendEntries {
            term: self.hard_state.current_term.0,
            leader_id: self.config.node_id.0,
            prev_log_index: prev.0,
            prev_log_term: term.0,
            leader_commit: self.soft_state.commit_index.0,
            entry_count: #[verifier::truncate] (count as u32),
            _pad: self.read_probe_seq,
        };
        assert(append_request_spec(old(self)@, prev, term, count as nat) == req);
        Ok(req)
    }

    /// Opens the gathering of acks for a batch that ends at `last_index` and
    /// was handed to the transport for `sent`.
    pub fn open_gather(&self, last_index: LogIndex, sent: &Vec<PeerId>) -> (r: ProposeGather)
        ensures
            r@ == opened_gather(self@, last_index, sent@),
    {
        let mut pending: PeerMap<AppendAttemptState> = PeerMap::with_capacity(sent.len());
        let state = AppendAttemptState { attempts: 1, sent_last_index: last_index };
        let mut i: usize = 0;
        while i < sent.len()
            invariant
                i <= sent@.len(),
                state == (AppendAttemptState { attempts: 1, sent_last_index: last_index }),
                forall|p: PeerId| #[trigger] pending@.dom().contains(p) <==> sent@.take(
                    i as int,
                ).contains(p),
                forall|p: PeerId| #[trigger] pending@.dom().contains(p) ==> pending@[p] == state,
            decreases sent@.len() - i,
        {
            proof {
                crate::node::raft_node::lemma_take_contains(sent@, i as int);
            }
            pending.insert(sent[i], state);
            i = i + 1;
        }
        assert(sent@.take(i as int) =~= sent@);
        assert(pending@ =~= first_attempts(sent@, last_index));
        ProposeGather {
            pending,
            accepted: 1,
            needed: quorum(self.config.peers.len()),
            last_index,
            term: self.hard_state.current_term,
        }
    }

    /// Takes in an append response while acks are gathered. Only a voter's
    /// completed ack counts; a learner's moves its own progress and no more.
    /// `Some(peer)` asks for the rest of the batch to be sent to that peer.
    pub fn process_append_resp<S: RaftStorage>(
        &mut self,
        storage: &mut S,
        gather: &mut ProposeGather,
        from: PeerId,
        resp: &AppendEntriesResp,
    ) -> (r: Result<Option<PeerId>, RaftError>)
        requires
            old(gather)@.accepted < usize::MAX,
        ensures
            ack_outcome(
                old(self)@,
                old(storage).model(),
                old(gather)@,
                from,
                *resp,
                r,
                final(self)@,
                final(storage).model(),
                final(gather)@,
            ),
            r matches Err(e) ==> S::fails_with(e) || e == (RaftError::TermChanged {
                current: Term(resp.term),
            }) || (e matches RaftError::PeerUnknown(p) && p == from),
    {
        let under_way: Option<AppendAttemptState> = match gather.pending.get(from) {
            Some(s) => Some(*s),
            None => None,
        };
        match under_way {
            None => match self.handle_append_entries_response(storage, from, resp) {
                Err(e) => Err(e),
                Ok(()) => Ok(None),
            },
            Some(state) => match self.advance_append_replication(
                storage,
                from,
                gather.last_index,
                state,
                resp,
            ) {
                Err(e) => Err(e),
                Ok(AppendVerdict::Completed) => {
                    gather.pending.remove(from);
                    if contains(&self.config.peers, from) {
                        gather.accepted = gather.accepted + 1;
                    }
                    Ok(None)
                },
                Ok(AppendVerdict::Resend) => Ok(Some(from)),
                Ok(AppendVerdict::Ignored) => Ok(None),
            },
        }
    }

    /// Whether gathering is over: the batch has its majority, or nobody is left
    /// to answer.
    pub fn gather_done(&self, gather: &ProposeGather) -> (r: bool)
        ensures
            r == (self.gather_reached(gather@) || gather@.pending == Map::<
                PeerId,
                AppendAttemptState,
            >::empty()),
    {
        self.propose_commit_reached(gather.needed, gather.accepted, gather.last_index)
            || gather.pending.is_empty()
    }

    /// Whether the batch has its majority.
    pub open spec fn gather_reached(&self, g: GatherModel) -> bool {
        if self@.joint is Some {
            self@.meets_quorum(g.last_index.0)
        } else {
            g.accepted >= g.needed
        }
    }

    /// Ends a proposal: commits the batch if it has its majority and this node
    /// still leads the term it was appended in. `NoQuorum` means that it is not
    /// committed, not that it never will be.
    pub fn finish_propose<S: RaftStorage>(&mut self, storage: &S, gather: &ProposeGather) -> (r:
        Result<(), RaftError>)
        ensures
            finish_outcome::<S>(old(self)@, storage.model(), gather@, r, final(self)@),
    {
        if self.joint_peers.is_none() && self.is_leader() && self.hard_state.current_term
            == gather.term && gather.accepted >= gather.needed {
            if gather.last_index.0 > self.soft_state.commit_index.0 {
                self.set_commit_index(gather.last_index);
            }
            return Ok(());
        }
        match self.try_advance_commit_index(storage) {
            Err(e) => {
                assert(commit_outcome(
                    old(self)@,
                    storage.model(),
                    Err::<(), RaftError>(e),
                    self@,
                ));
                return Err(e);
            },
            Ok(()) => {},
        }
        assert(commit_outcome(old(self)@, storage.model(), Ok::<(), RaftError>(()), self@));
        if self.soft_state.commit_index.0 < gather.last_index.0 {
            return Err(RaftError::NoQuorum);
        }
        Ok(())
    }

    /// Appends a batch to be sent without waiting for acks, unless a transfer
    /// awaits its outcome: the first index and the number of its entries, the
    /// entries, and the request that carries them to the other voters. Without
    /// payloads there is nothing to send.
    pub fn begin_replicate<'a, S: RaftStorage>(
        &mut self,
        storage: &mut S,
        payloads: &[&'a [u8]],
        now_ms: u64,
    ) -> (r: Result<(LogIndex, usize, Vec<LogEntry<'a>>, Option<AppendEntries>), RaftError>)
        requires
            old(self)@.last_log.0.0 + payloads@.len() < u64::MAX,
        ensures
            !old(self)@.leads() ==> (r matches Err(e) && old(self)@.is_not_leader_error(e))
                && final(self)@ == old(self)@ && final(storage).model() == old(storage).model(),
            old(self)@.leads() && old(self)@.transferring(now_ms) ==> (r matches Err(
                RaftError::NotLeader { leader_hint },
            ) && leader_hint == Some(
                crate::types::LeaderHint { leader_id: old(self)@.transfer->0.target },
            )) && final(self)@ == old(self)@ && final(storage).model() == old(storage).model(),
            old(self)@.leads() && !old(self)@.transferring(now_ms) && payloads@.len() == 0 ==> (
            r matches Ok((first, n, entries, req)) && first.0 == 0 && n == 0 && entries@.len() == 0
                && req is None) && final(self)@ == old(self)@.window_checked(now_ms)
                && final(storage).model() == old(storage).model(),
            old(self)@.leads() && !old(self)@.transferring(now_ms) && payloads@.len() > 0 ==> {
                let ready = old(self)@.window_checked(now_ms).with_progress_started(now_ms);
                &&& r matches Err(e) ==> S::fails_with(e)
                &&& proposal_appended(
                    ready,
                    old(storage).model(),
                    payloads@,
                    match r {
                        Ok(_) => Ok(()),
                        Err(e) => Err(e),
                    },
                    final(self)@,
                    final(storage).model(),
                )
                &&& r matches Ok((first, n, entries, req)) ==> {
                    &&& first.0 == old(self)@.last_log.0.0 + 1
                    &&& n == payloads@.len()
                    &&& records(entries@) == proposed(ready, payloads@)
                    &&& req == Some(
                        AppendEntries {
                            _pad: 0,
                            ..append_request_spec(
                                ready,
                                ready.last_log.0,
                                ready.last_log.1,
                                payloads@.len(),
                            )
                        },
                    )
                }
            },
    {
        if !self.is_leader() {
            return Err(self.not_leader_error());
        }
        match self.check_transfer_freeze(now_ms) {
            Err(e) => {
                return Err(e);
            },
            Ok(()) => {},
        }
        if payloads.len() == 0 {
            return Ok((LogIndex(0), 0, Vec::new(), None));
        }
        self.ensure_leader_progress_initialized(now_ms);
        let (prev_index, prev_term) = self.cached_last_log;
        let first = LogIndex(prev_index.0 + 1);
        let entries = match self.append_propose_entries(storage, payloads) {
            Err(e) => {
                return Err(e);
            },
            Ok(entries) => entries,
        };
        let req = AppendEntries {
            term: self.hard_state.current_term.0,
            leader_id: self.config.node_id.0,
            prev_log_index: prev_index.0,
            prev_log_term: prev_term.0,
            leader_commit: self.soft_state.commit_index.0,
            entry_count: #[verifier::truncate] (payloads.len() as u32),
            _pad: 0,
        };
        Ok((first, payloads.len(), entries, Some(req)))
    }
}

/// A proposal's entries are consecutive, of the leader's term, right after its
/// tip, and carry the payloads in order.
pub proof fn law_proposals_extend_the_log(m: NodeModel, payloads: Seq<&[u8]>, i: int)
    requires
        0 <= i < payloads.len(),
        m.last_log.0.0 + payloads.len() < u64::MAX,
    ensures
        proposed(m, payloads)[i].index.0 == m.last_log.0.0 + 1 + i,
        proposed(m, payloads)[i].term == m.hard.current_term,
        proposed(m, payloads)[i].payload == payloads[i]@,
{
}

/// The payload bytes of a batch are those of its parts.
pub proof fn law_payloads_add_up(a: Seq<EntryRecord>, b: Seq<EntryRecord>, e: EntryRecord)
    ensures
        payload_total(a + b) == payload_total(a) + payload_total(b),
        payload_total(seq![e]) == e.payload.len(),
    decreases b.len(),
{
    assert(seq![e].drop_last() =~= Seq::<EntryRecord>::empty());
    reveal_with_fuel(payload_total, 2);
    if b.len() == 0 {
        assert(a + b =~= a);
    } else {
        law_payloads_add_up(a, b.drop_last(), e);
        assert((a + b).drop_last() =~= a + b.drop_last());
    }
}

/// A write with slices is one that the system takes and that is worth it. Two slices per
/// entry and four more are never over the limit, no payload is below its least, and the
/// batch is not below its own; one entry alone goes out as slices as soon as it is large
/// enough for both. Where the choice is made beforehand nothing else matters.
pub proof fn law_slices_are_worth_it(t: VecTuning, entries: Seq<EntryRecord>, i: int)
    ensures
        t.force matches Some(forced) ==> worth_slices(t, entries) == forced,
        t.force is None && worth_slices(t, entries) ==> {
            &&& entries.len() + entries.len() + 4 <= t.iov_max
            &&& payload_total(entries) >= t.min_total
            &&& 0 <= i < entries.len() ==> entries[i].payload.len() >= t.min_entry
        },
        t.force is None && t.iov_max >= 6 && entries.len() == 1 && entries[0].payload.len()
            >= t.min_entry && entries[0].payload.len() >= t.min_total ==> worth_slices(t, entries),
{
    reveal_with_fuel(payload_total, 2);
}

} // verus!
