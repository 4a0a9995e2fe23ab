//! Building append requests, and deciding what is committed.

use vstd::prelude::*;

use super::response::{after, before, smaller};
use crate::entry::{EntryRecord, LogEntry};
use crate::error::RaftError;
use crate::node::election::{lemma_others_are_peers, others};
use crate::node::progress::PeerProgress;
use crate::node::quorum::{is_quorum_value, quorum, quorum_spec, quorum_value};
use crate::node::raft_node::{NodeModel, RaftNode};
use crate::protocol::codec::wire::AppendEntries;
use crate::protocol::message::records;
use crate::text::{decimal, text_number};
use crate::traits::{is_from_log, RaftStorage, StorageModel};
use crate::types::{LogIndex, PeerId, Term};

verus! {

/// The highest index that at least `q` of `acks` reach.
pub open spec fn quorum_index(acks: Seq<u64>, q: nat) -> u64 {
    choose|v: u64| is_quorum_value(acks, q, v)
}

/// There is only one highest index.
pub(crate) proof fn lemma_quorum_index(acks: Seq<u64>, q: nat, v: u64)
    requires
        is_quorum_value(acks, q, v),
    ensures
        quorum_index(acks, q) == v,
{
    let w = quorum_index(acks, q);
    if w > v {
        assert(crate::node::quorum::count_ge(acks, w as int) < q);
    }
    if v > w {
        assert(crate::node::quorum::count_ge(acks, v as int) < q);
    }
}

impl NodeModel {
    /// How far `peer` is known to have the log: the leader has all of its own,
    /// and a peer without progress has nothing.
    pub open spec fn ack_of(self, peer: PeerId) -> u64 {
        if peer == self.node_id {
            self.last_log.0.0
        } else if self.progress.dom().contains(peer) {
            self.progress[peer].match_index.0
        } else {
            0
        }
    }

    /// How far each of `subset` has the log.
    pub open spec fn acks_of(self, subset: Seq<PeerId>) -> Seq<u64> {
        subset.map_values(|p: PeerId| self.ack_of(p))
    }

    /// The highest index that a majority of `subset` has.
    pub open spec fn subset_quorum(self, subset: Seq<PeerId>) -> Option<u64> {
        if subset.len() == 0 {
            None
        } else {
            Some(quorum_index(self.acks_of(subset), quorum_spec(subset.len())))
        }
    }

    /// Whether the entry at `index` has the majority that a commit needs.
    pub open spec fn meets_quorum(self, index: u64) -> bool {
        match self.joint {
            Some((old_peers, new_peers)) => {
                &&& self.subset_quorum(old_peers) matches Some(q) && q >= index
                &&& self.subset_quorum(new_peers) matches Some(q) && q >= index
            },
            None => self.subset_quorum(self.peers) matches Some(q) && q >= index,
        }
    }

    /// How far the leader and each other voter have the log.
    pub open spec fn voter_acks(self) -> Seq<u64> {
        seq![self.last_log.0.0] + self.acks_of(others(self.peers, self.node_id))
    }

    /// The highest index that a majority of the voters has, of both voter sets
    /// while a transition is under way.
    pub open spec fn commit_point(self) -> Option<u64> {
        match self.joint {
            Some((old_peers, new_peers)) => match (
                self.subset_quorum(old_peers),
                self.subset_quorum(new_peers),
            ) {
                (Some(o), Some(n)) => Some(smaller(o, n)),
                _ => None,
            },
            None => if quorum_spec(self.peers.len()) > self.voter_acks().len() {
                None
            } else {
                Some(quorum_index(self.voter_acks(), quorum_spec(self.peers.len())))
            },
        }
    }

    /// The term at `index` as far as the node knows it without its storage.
    pub open spec fn known_term_at(self, index: u64) -> Option<Term> {
        if index == 0 {
            Some(Term(0))
        } else if index == self.last_log.0.0 {
            Some(self.last_log.1)
        } else if self.arena.lookup(index as int) is Some {
            self.arena.lookup(index as int)
        } else if index == self.boundary.0.0 {
            Some(self.boundary.1)
        } else {
            None
        }
    }

    /// The node with a term from its storage remembered.
    pub open spec fn remembering(self, index: u64, term: Term) -> NodeModel {
        NodeModel { arena: self.arena.appended(index, term), ..self }
    }

    /// The commit point, if it would move the commit index: somebody else's
    /// progress is known or nobody else votes, and the point is past what is
    /// committed.
    pub open spec fn commit_candidate(self) -> Option<u64> {
        if self.peers.len() > 1 && self.progress == Map::<PeerId, PeerProgress>::empty() {
            None
        } else if self.last_log.0.0 <= self.soft.commit_index.0 {
            None
        } else {
            match self.commit_point() {
                Some(q) => if q > self.soft.commit_index.0 {
                    Some(q)
                } else {
                    None
                },
                None => None,
            }
        }
    }

    /// The term of a commit candidate, as far as it is known without the
    /// storage.
    pub open spec fn candidate_term(self, q: u64) -> Option<Term> {
        if q == self.last_log.0.0 {
            Some(self.last_log.1)
        } else {
            self.arena.lookup(q as int)
        }
    }
}

/// How an attempt to move the commit index came out. Only an entry of the
/// current term is committed by counting acks.
pub open spec fn commit_outcome(
    m: NodeModel,
    stored: StorageModel,
    r: Result<(), RaftError>,
    after: NodeModel,
) -> bool {
    match m.commit_candidate() {
        None => r is Ok && after == m,
        Some(q) => match m.candidate_term(q) {
            Some(t) => r is Ok && after == if t == m.hard.current_term {
                m.committed_to(LogIndex(q))
            } else {
                m
            },
            None => match r {
                Err(_) => after == m,
                Ok(()) => {
                    let t = match stored.term_of(q as int) {
                        Some(t) => t,
                        None => Term(0),
                    };
                    let noted = if t.0 > 0 {
                        m.remembering(q, t)
                    } else {
                        m
                    };
                    after == if t == m.hard.current_term {
                        noted.committed_to(LogIndex(q))
                    } else {
                        noted
                    }
                },
            },
        },
    }
}

/// The request that carries `count` entries after `prev`.
pub open spec fn append_request_spec(m: NodeModel, prev: LogIndex, prev_term: Term, count: nat)
    -> AppendEntries {
    AppendEntries {
        term: m.hard.current_term.0,
        leader_id: m.node_id.0,
        prev_log_index: prev.0,
        prev_log_term: prev_term.0,
        leader_commit: m.soft.commit_index.0,
        entry_count: count as u32,
        _pad: m.probe,
    }
}

/// How many entries one request carries at most.
pub open spec fn batch_limit(m: NodeModel) -> nat {
    if m.limits.append_batch_entries == 0 {
        1
    } else {
        m.limits.append_batch_entries as nat
    }
}

/// Whether `after` is the node, with the term at `index` remembered if it had to
/// be looked up and was found.
pub open spec fn looked_up(
    m: NodeModel,
    stored: StorageModel,
    index: u64,
    after: NodeModel,
) -> bool {
    after == m || {
        &&& m.known_term_at(index) is None
        &&& stored.log.dom().contains(index as int)
        &&& after == m.remembering(index, stored.log[index as int].term)
    }
}

/// Whether `sent` is what the log holds from `next` on, up to the first index
/// that it does not hold, but no more than `limit` entries of it.
pub open spec fn is_backlog(
    log: Map<int, EntryRecord>,
    next: int,
    limit: nat,
    sent: Seq<EntryRecord>,
) -> bool {
    &&& sent.len() <= limit
    &&& forall|k: int| 0 <= k < sent.len() ==> #[trigger] is_from_log(log, next, sent, k)
    &&& sent.len() < limit && next + sent.len() <= u64::MAX ==> !log.dom().contains(
        next + sent.len(),
    )
}

/// How building the next request for `peer` came out. What goes out is the log
/// from the peer's next entry on, without a gap, as far as the batch limit allows.
pub open spec fn backlog_outcome(
    m: NodeModel,
    stored: StorageModel,
    peer: PeerId,
    r: Result<(AppendEntries, Vec<LogEntry<'_>>, LogIndex), RaftError>,
    after: NodeModel,
) -> bool {
    if !m.progress.dom().contains(peer) {
        (r matches Err(RaftError::PeerUnknown(p)) && p == peer) && after == m
    } else {
        let next = m.progress[peer].next_index.0;
        let prev = before(next);
        match r {
            Ok((request, entries, last)) => {
                let sent = records(entries@);
                let prev_term = match m.known_term_at(prev) {
                    Some(t) => t,
                    None => stored.log[prev as int].term,
                };
                &&& m.known_term_at(prev) is Some || stored.log.dom().contains(prev as int)
                &&& after == match m.known_term_at(prev) {
                    Some(_) => m,
                    None => m.remembering(prev, prev_term),
                }
                &&& is_backlog(stored.log, next as int, batch_limit(m), sent)
                &&& last.0 == if sent.len() == 0 {
                    prev as int
                } else {
                    next + sent.len() - 1
                }
                &&& request == append_request_spec(m, LogIndex(prev), prev_term, sent.len())
            },
            Err(_) => looked_up(m, stored, prev, after),
        }
    }
}

/// Whether nothing can be sent to `peer` over any storage, and `e` says why: the
/// peer is not tracked, or neither the node nor the log knows the entry before its
/// next one.
pub open spec fn is_unsendable(
    m: NodeModel,
    stored: StorageModel,
    peer: PeerId,
    e: RaftError,
) -> bool {
    if !m.progress.dom().contains(peer) {
        e matches RaftError::PeerUnknown(p) && p == peer
    } else {
        let prev = before(m.progress[peer].next_index.0);
        &&& m.known_term_at(prev) is None
        &&& stored.term_of(prev as int) is None
        &&& is_missing_term(e, prev)
    }
}

impl RaftNode {
    /// The term of the entry at `index`. What the storage had to be asked for is
    /// remembered.
    pub fn term_at<S: RaftStorage>(&mut self, storage: &S, index: LogIndex) -> (r: Result<
        Term,
        RaftError,
    >)
        ensures
            match old(self)@.known_term_at(index.0) {
                Some(t) => r == Ok::<Term, RaftError>(t) && final(self)@ == old(self)@,
                None => match r {
                    Ok(t) => storage.model().term_of(index.0 as int) == Some(t) && final(self)@
                        == old(self)@.remembering(index.0, t),
                    Err(e) => {
                        &&& final(self)@ == old(self)@
                        &&& S::fails_with(e) || (storage.model().term_of(index.0 as int) is None
                            && is_missing_term(e, index.0))
                    },
                },
            },
    {
        if index.0 == 0 {
            return Ok(Term(0));
        }
        if index == self.cached_last_log.0 {
            return Ok(self.cached_last_log.1);
        }
        match self.log_metadata.get_term(index) {
            Some(term) => {
                return Ok(term);
            },
            None => {},
        }
        if index == self.snapshot_boundary.0 {
            return Ok(self.snapshot_boundary.1);
        }
        match storage.term_at(index) {
            Err(e) => Err(e),
            Ok(found) => match require_term(index, found) {
                Err(e) => Err(e),
                Ok(term) => {
                    self.log_metadata.append(index, term);
                    Ok(term)
                },
            },
        }
    }

    /// The entry before the next one to send to `peer`, its term, and the next
    /// one.
    pub fn append_prev_for_peer<S: RaftStorage>(&mut self, storage: &S, peer: PeerId) -> (r:
        Result<(LogIndex, Term, LogIndex), RaftError>)
        ensures
            !old(self)@.progress.dom().contains(peer) ==> (r matches Err(RaftError::PeerUnknown(p))
                && p == peer) && final(self)@ == old(self)@,
            old(self)@.progress.dom().contains(peer) ==> {
                let next = old(self)@.progress[peer].next_index;
                let prev = before(next.0);
                match old(self)@.known_term_at(prev) {
                    Some(t) => r == Ok::<(LogIndex, Term, LogIndex), RaftError>(
                        (LogIndex(prev), t, next),
                    ) && final(self)@ == old(self)@,
                    None => match r {
                        Ok((p, t, n)) => p.0 == prev && n == next && storage.model().term_of(
                            prev as int,
                        ) == Some(t) && final(self)@ == old(self)@.remembering(prev, t),
                        Err(e) => {
                            &&& final(self)@ == old(self)@
                            &&& S::fails_with(e) || (storage.model().term_of(prev as int) is None
                                && is_missing_term(e, prev))
                        },
                    },
                }
            },
    {
        let progress: PeerProgress = match self.peer_progress.get(peer) {
            Some(p) => *p,
            None => {
                return Err(RaftError::PeerUnknown(peer));
            },
        };
        let prev = LogIndex(progress.next_index.0.saturating_sub(1));
        match self.term_at(storage, prev) {
            Err(e) => Err(e),
            Ok(term) => Ok((prev, term, progress.next_index)),
        }
    }

    /// The request for `entries` after `prev`: at most a batch of them, and the
    /// index of the last one that goes out (`prev` where none does).
    pub fn prepare_append<'a>(
        &self,
        prev: LogIndex,
        prev_term: Term,
        entries: Vec<LogEntry<'a>>,
    ) -> (r: (AppendEntries, Vec<LogEntry<'a>>, LogIndex))
        ensures
            ({
                let limit = batch_limit(self@);
                let count = if entries@.len() > limit {
                    limit
                } else {
                    entries@.len()
                };
                &&& r.1@ == entries@.take(count as int)
                &&& r.0 == append_request_spec(self@, prev, prev_term, count)
                &&& r.2 == if count == 0 {
                    prev
                } else {
                    entries@[count - 1].index
                }
            }),
    {
        let mut out = entries;
        let limit: usize = if self.config.limits.append_batch_entries == 0 {
            1
        } else {
            self.config.limits.append_batch_entries
        };
        if out.len() > limit {
            out.truncate(limit);
        }
        assert(out@ =~= entries@.take(out@.len() as int));
        let last = if out.len() == 0 {
            prev
        } else {
            out[out.len() - 1].index
        };
        let request = AppendEntries {
            term: self.hard_state.current_term.0,
            leader_id: self.config.node_id.0,
            prev_log_index: prev.0,
            prev_log_term: prev_term.0,
            leader_commit: self.soft_state.commit_index.0,
            entry_count: #[verifier::truncate] (out.len() as u32),
            _pad: self.read_probe_seq,
        };
        (request, out, last)
    }

    /// The request that brings `peer` what the log holds from its next entry on, at
    /// most a batch of it, with the entries and the index of the last one (that
    /// before the next one where there is none to send).
    pub fn build_append_for_peer<'a, S: RaftStorage>(
        &mut self,
        storage: &S,
        peer: PeerId,
        buf: &'a mut Vec<u8>,
    ) -> (r: Result<(AppendEntries, Vec<LogEntry<'a>>, LogIndex), RaftError>)
        ensures
            backlog_outcome(old(self)@, storage.model(), peer, r, final(self)@),
            r matches Err(e) ==> S::fails_with(e) || is_unsendable(
                old(self)@,
                storage.model(),
                peer,
                e,
            ),
    {
        let (prev, prev_term, next): (LogIndex, Term, LogIndex) = match self.append_prev_for_peer(
            storage,
            peer,
        ) {
            Err(e) => {
                return Err(e);
            },
            Ok(found) => found,
        };
        let mut entries: Vec<LogEntry<'a>> = Vec::new();
        match storage.read_entries(next, LogIndex(u64::MAX), &mut entries, buf) {
            Err(e) => Err(e),
            Ok(()) => {
                let ghost all = records(entries@);
                let built = self.prepare_append(prev, prev_term, entries);
                proof {
                    let sent = records(built.1@);
                    assert(sent =~= all.take(sent.len() as int));
                    assert forall|k: int| 0 <= k < sent.len() implies #[trigger] is_from_log(
                        storage.model().log,
                        next.0 as int,
                        sent,
                        k,
                    ) by {
                        assert(is_from_log(storage.model().log, next.0 as int, all, k));
                    }
                    if sent.len() > 0 {
                        assert(is_from_log(
                            storage.model().log,
                            next.0 as int,
                            sent,
                            sent.len() - 1,
                        ));
                    }
                }
                Ok(built)
            },
        }
    }

    fn ack_index(&self, peer: PeerId) -> (r: u64)
        ensures
            r == self@.ack_of(peer),
    {
        if peer == self.config.node_id {
            self.cached_last_log.0.0
        } else {
            match self.peer_progress.get(peer) {
                Some(p) => p.match_index.0,
                None => 0,
            }
        }
    }

    fn ack_indexes(&self, subset: &Vec<PeerId>) -> (r: Vec<u64>)
        ensures
            r@ == self@.acks_of(subset@),
    {
        let mut acks: Vec<u64> = Vec::with_capacity(subset.len());
        let mut i: usize = 0;
        while i < subset.len()
            invariant
                i <= subset@.len(),
                acks@ =~= self@.acks_of(subset@.take(i as int)),
            decreases subset@.len() - i,
        {
            acks.push(self.ack_index(subset[i]));
            i = i + 1;
        }
        assert(subset@.take(i as int) =~= subset@);
        acks
    }

    /// The highest index that a strict majority of `subset` has.
    pub fn subset_quorum_index(&self, subset: &Vec<PeerId>) -> (r: Option<LogIndex>)
        ensures
            match self@.subset_quorum(subset@) {
                Some(q) => r == Some(LogIndex(q)),
                None => r is None,
            },
            subset@.len() > 0 ==> (r matches Some(q) && is_quorum_value(
                self@.acks_of(subset@),
                quorum_spec(subset@.len()),
                q.0,
            )),
    {
        if subset.is_empty() {
            return None;
        }
        let acks = self.ack_indexes(subset);
        match quorum_value(&acks, quorum(subset.len())) {
            Some(v) => {
                proof {
                    lemma_quorum_index(acks@, quorum_spec(subset@.len()), v);
                }
                Some(LogIndex(v))
            },
            None => None,
        }
    }

    /// Whether the entry at `index` has the majority that a commit needs.
    pub fn index_meets_commit_quorum(&self, index: LogIndex) -> (r: bool)
        ensures
            r == self@.meets_quorum(index.0),
    {
        match &self.joint_peers {
            Some((old_peers, new_peers)) => {
                let old_ok: bool = match self.subset_quorum_index(old_peers) {
                    Some(q) => q.0 >= index.0,
                    None => false,
                };
                let new_ok: bool = match self.subset_quorum_index(new_peers) {
                    Some(q) => q.0 >= index.0,
                    None => false,
                };
                old_ok && new_ok
            },
            None => match self.subset_quorum_index(&self.config.peers) {
                Some(q) => q.0 >= index.0,
                None => false,
            },
        }
    }

    /// Whether a proposal whose last entry is at `last_index` has its majority:
    /// enough acks, or the majority of both voter sets while a transition is
    /// under way.
    pub fn propose_commit_reached(&self, needed: usize, accepted: usize, last_index: LogIndex) -> (r:
        bool)
        ensures
            r == if self@.joint is Some {
                self@.meets_quorum(last_index.0)
            } else {
                accepted >= needed
            },
    {
        if self.joint_peers.is_some() {
            self.index_meets_commit_quorum(last_index)
        } else {
            accepted >= needed
        }
    }

    fn commit_point_index(&self) -> (r: Option<u64>)
        ensures
            r == self@.commit_point(),
    {
        match &self.joint_peers {
            Some((old_peers, new_peers)) => {
                let old_q: u64 = match self.subset_quorum_index(old_peers) {
                    Some(q) => q.0,
                    None => {
                        return None;
                    },
                };
                let new_q: u64 = match self.subset_quorum_index(new_peers) {
                    Some(q) => q.0,
                    None => {
                        return None;
                    },
                };
                if old_q < new_q {
                    Some(old_q)
                } else {
                    Some(new_q)
                }
            },
            None => {
                let mut acks: Vec<u64> = Vec::new();
                acks.push(self.cached_last_log.0.0);
                let other = self.other_voters();
                let mut theirs = self.ack_indexes(&other);
                acks.append(&mut theirs);
                assert(acks@ =~= self@.voter_acks());
                let q: usize = quorum(self.config.peers.len());
                match quorum_value(&acks, q) {
                    Some(v) => {
                        proof {
                            if quorum_spec(self@.peers.len()) <= acks@.len() {
                                lemma_quorum_index(acks@, q as nat, v);
                            }
                        }
                        if q > acks.len() {
                            None
                        } else {
                            Some(v)
                        }
                    },
                    None => None,
                }
            },
        }
    }

    /// Moves the commit index to the highest index that a majority has, if the
    /// entry there is of the current term.
    pub fn try_advance_commit_index<S: RaftStorage>(&mut self, storage: &S) -> (r: Result<
        (),
        RaftError,
    >)
        ensures
            commit_outcome(old(self)@, storage.model(), r, final(self)@),
            r matches Err(e) ==> S::fails_with(e),
    {
        if self.config.peers.len() > 1 && self.peer_progress.is_empty() {
            return Ok(());
        }
        if self.cached_last_log.0.0 <= self.soft_state.commit_index.0 {
            return Ok(());
        }
        let q: u64 = match self.commit_point_index() {
            None => {
                return Ok(());
            },
            Some(q) => q,
        };
        if q <= self.soft_state.commit_index.0 {
            return Ok(());
        }
        let term: Term = if q == self.cached_last_log.0.0 {
            self.cached_last_log.1
        } else {
            match self.log_metadata.get_term(LogIndex(q)) {
                Some(t) => t,
                None => {
                    let found: Option<Term> = match storage.term_at(LogIndex(q)) {
                        Err(e) => {
                            return Err(e);
                        },
                        Ok(t) => t,
                    };
                    let t: Term = match found {
                        Some(t) => t,
                        None => Term(0),
                    };
                    if t.0 > 0 {
                        self.log_metadata.append(LogIndex(q), t);
                    }
                    t
                },
            }
        };
        if term == self.hard_state.current_term {
            self.set_commit_index(LogIndex(q));
        }
        Ok(())
    }
}

/// The error for a hole in the log at `index`.
pub open spec fn is_missing_term(e: RaftError, index: u64) -> bool {
    e matches RaftError::CorruptLog(m) && m@ == "missing term at index "@ + decimal(index as nat)
}

/// The term that a storage found at `index`; a hole in the log is corruption.
pub fn require_term(index: LogIndex, found: Option<Term>) -> (r: Result<Term, RaftError>)
    ensures
        match found {
            Some(t) => r == Ok::<Term, RaftError>(t),
            None => r matches Err(e) && is_missing_term(e, index.0),
        },
{
    match found {
        Some(t) => Ok(t),
        None => Err(RaftError::CorruptLog(text_number("missing term at index ", index.0))),
    }
}

/// The commit index never goes back, and an entry is committed by counting acks
/// only if it is of the leader's current term and a majority has it.
pub proof fn law_commit_is_safe(
    m: NodeModel,
    stored: StorageModel,
    r: Result<(), RaftError>,
    after: NodeModel,
)
    requires
        commit_outcome(m, stored, r, after),
    ensures
        after.soft.commit_index.0 >= m.soft.commit_index.0,
        after.soft.commit_index != m.soft.commit_index ==> {
            let q = after.soft.commit_index.0;
            &&& m.commit_point() == Some(q)
            &&& match m.candidate_term(q) {
                Some(t) => t == m.hard.current_term,
                None => stored.term_of(q as int) == Some(m.hard.current_term) || (stored.term_of(
                    q as int,
                ) is None && m.hard.current_term == Term(0)),
            }
        },
        after.hard == m.hard,
        after.last_applied == m.last_applied,
{
}

/// Once the storage has answered, the commit index is where the majority is, if the
/// entry there is new and of the current term, and otherwise where it was.
pub proof fn law_commit_reaches_the_majority(m: NodeModel, stored: StorageModel, after: NodeModel)
    requires
        commit_outcome(m, stored, Ok(()), after),
    ensures
        after.soft.commit_index == match m.commit_candidate() {
            None => m.soft.commit_index,
            Some(q) => {
                let term = match m.candidate_term(q) {
                    Some(t) => t,
                    None => match stored.term_of(q as int) {
                        Some(t) => t,
                        None => Term(0),
                    },
                };
                if term == m.hard.current_term {
                    LogIndex(q)
                } else {
                    m.soft.commit_index
                }
            },
        },
{
}

/// While a transition is under way, no index is committable that the old voters
/// or the new voters alone would refuse.
pub proof fn law_joint_commit_needs_both(
    m: NodeModel,
    old_peers: Seq<PeerId>,
    new_peers: Seq<PeerId>,
    index: u64,
)
    requires
        m.joint == Some((old_peers, new_peers)),
    ensures
        m.meets_quorum(index) ==> {
            &&& m.subset_quorum(old_peers) matches Some(q) && q >= index
            &&& m.subset_quorum(new_peers) matches Some(q) && q >= index
        },
        m.commit_point() matches Some(q) ==> m.meets_quorum(q),
{
}

/// What a learner has acknowledged never moves the commit index.
pub proof fn law_learners_do_not_commit(m: NodeModel, learner: PeerId, p: PeerProgress)
    requires
        m.joint is None ==> !m.peers.contains(learner),
        m.joint matches Some((o, n)) ==> !o.contains(learner) && !n.contains(learner),
    ensures
        (NodeModel { progress: m.progress.insert(learner, p), ..m }).commit_point()
            == m.commit_point(),
{
    let n = NodeModel { progress: m.progress.insert(learner, p), ..m };
    match m.joint {
        Some((old_peers, new_peers)) => {
            assert(n.acks_of(old_peers) =~= m.acks_of(old_peers)) by {
                lemma_acks_ignore(m, learner, p, old_peers);
            }
            assert(n.acks_of(new_peers) =~= m.acks_of(new_peers)) by {
                lemma_acks_ignore(m, learner, p, new_peers);
            }
        },
        None => {
            let rest = others(m.peers, m.node_id);
            assert(!rest.contains(learner)) by {
                if rest.contains(learner) {
                    lemma_others_are_peers(m.peers, m.node_id, learner);
                }
            }
            lemma_acks_ignore(m, learner, p, rest);
            assert(n.acks_of(rest) =~= m.acks_of(rest));
        },
    }
}

proof fn lemma_acks_ignore(m: NodeModel, learner: PeerId, p: PeerProgress, subset: Seq<PeerId>)
    requires
        !subset.contains(learner),
    ensures
        (NodeModel { progress: m.progress.insert(learner, p), ..m }).acks_of(subset)
            == m.acks_of(subset),
{
    let n = NodeModel { progress: m.progress.insert(learner, p), ..m };
    assert forall|i: int| 0 <= i < subset.len() implies n.acks_of(subset)[i] == m.acks_of(
        subset,
    )[i] by {
        assert(subset.contains(subset[i]));
    }
    assert(n.acks_of(subset) =~= m.acks_of(subset));
}

} // verus!
