//! What an embedder provides.

use vstd::prelude::*;

use crate::entry::{EntryRecord, LogEntry};
use crate::error::{ErrorClass, RaftError};
use crate::state::{HardState, SnapshotMeta};
use crate::types::{LogIndex, Term};

verus! {

/// What a storage durably holds.
#[verifier::ext_equal]
pub struct StorageModel {
    /// The hard state that was saved last.
    pub hard_state: HardState,
    /// The log entries, by index.
    pub log: Map<int, EntryRecord>,
    /// The position of the log's tip.
    pub tip: (LogIndex, Term),
    /// The snapshot that was saved last.
    pub snapshot: Option<(SnapshotMeta, Seq<u8>)>,
}

impl StorageModel {
    /// The term of the entry at `index`, if the log holds one there.
    pub open spec fn term_of(self, index: int) -> Option<Term> {
        if self.log.dom().contains(index) {
            Some(self.log[index].term)
        } else {
            None
        }
    }
}

/// The log with `entries` written into it, each at its index.
pub open spec fn log_with(log: Map<int, EntryRecord>, entries: Seq<EntryRecord>) -> Map<
    int,
    EntryRecord,
>
    decreases entries.len(),
{
    if entries.len() == 0 {
        log
    } else {
        log_with(log, entries.drop_last()).insert(
            entries.last().index.0 as int,
            entries.last(),
        )
    }
}

/// The log without the entries from `from` on.
pub open spec fn log_before(log: Map<int, EntryRecord>, from: int) -> Map<int, EntryRecord> {
    log.restrict(Set::new(|i: int| i < from))
}

/// The log without the entries before `from`.
pub open spec fn log_from(log: Map<int, EntryRecord>, from: int) -> Map<int, EntryRecord> {
    log.restrict(Set::new(|i: int| i >= from))
}

/// Whether `tip` is where a log ends: at its last entry, or, where it has none, at
/// the snapshot that covers what was there, or at the very start.
pub open spec fn is_tip(
    tip: (LogIndex, Term),
    log: Map<int, EntryRecord>,
    snapshot: Option<(SnapshotMeta, Seq<u8>)>,
) -> bool {
    if log.dom() == Set::<int>::empty() {
        tip == match snapshot {
            Some((meta, _)) => (meta.last_included_index, meta.last_included_term),
            None => (LogIndex(0), Term(0)),
        }
    } else {
        &&& log.dom().contains(tip.0.0 as int)
        &&& log[tip.0.0 as int].term == tip.1
        &&& forall|i: int| #[trigger] log.dom().contains(i) ==> i <= tip.0.0
    }
}

/// Where the log ends once `entries` were written to it.
pub open spec fn tip_with(tip: (LogIndex, Term), entries: Seq<EntryRecord>) -> (LogIndex, Term) {
    if entries.len() == 0 {
        tip
    } else {
        (entries.last().index, entries.last().term)
    }
}

/// Whether the entry at place `k` of `entries`, which start at `from`, is the one
/// that the log holds there.
pub open spec fn is_from_log(
    log: Map<int, EntryRecord>,
    from: int,
    entries: Seq<EntryRecord>,
    k: int,
) -> bool {
    &&& log.dom().contains(from + k)
    &&& entries[k] == log[from + k]
    &&& entries[k].index.0 == from + k
}

/// Whether `entries` is what the log holds from `from` to `to`, up to the first
/// index that it does not hold.
pub open spec fn is_log_run(
    log: Map<int, EntryRecord>,
    from: int,
    to: int,
    entries: Seq<EntryRecord>,
) -> bool {
    &&& entries.len() > 0 ==> from + entries.len() <= to + 1
    &&& forall|k: int| 0 <= k < entries.len() ==> #[trigger] is_from_log(log, from, entries, k)
    &&& from + entries.len() <= to ==> !log.dom().contains(from + entries.len())
}

/// Whether a failed write left everything as it was. A failure for lack of
/// resources promises that; any other failure promises nothing.
pub open spec fn refused_cleanly(e: RaftError, before: StorageModel, after: StorageModel) -> bool {
    e.class_spec() == ErrorClass::Resource ==> after == before
}

/// Durable storage of one node, implemented by the embedder.
///
/// A method that returns `Ok` has done what it says; a write that fails for
/// lack of resources has changed nothing. Any method may fail, with an error of
/// those that `fails_with` takes in.
pub trait RaftStorage: Sized {
    /// What the storage holds.
    spec fn model(&self) -> StorageModel;

    /// Whether `e` is an error that this kind of storage fails with. One that
    /// never fails takes in none.
    spec fn fails_with(e: RaftError) -> bool;

    /// The hard state that was saved last.
    fn load_hard_state(&self) -> (r: Result<HardState, RaftError>)
        ensures
            r matches Ok(hard_state) ==> hard_state == self.model().hard_state,
            r matches Err(e) ==> Self::fails_with(e),
    ;

    /// Makes the hard state durable.
    fn save_hard_state(&mut self, hard_state: &HardState) -> (r: Result<(), RaftError>)
        ensures
            r is Ok ==> final(self).model() == (StorageModel {
                hard_state: *hard_state,
                ..old(self).model()
            }),
            r matches Err(e) ==> refused_cleanly(e, old(self).model(), final(self).model()),
            r matches Err(e) ==> Self::fails_with(e),
    ;

    /// The term of the entry at `index`, without reading its payload.
    fn term_at(&self, index: LogIndex) -> (r: Result<Option<Term>, RaftError>)
        ensures
            r matches Ok(t) ==> t == self.model().term_of(index.0 as int),
            r matches Err(e) ==> Self::fails_with(e),
    ;

    /// Reads the entry at `index`, its payload into `buf`.
    fn entry_at<'a>(&self, index: LogIndex, buf: &'a mut [u8]) -> (r: Result<
        Option<LogEntry<'a>>,
        RaftError,
    >)
        ensures
            r matches Ok(found) ==> match found {
                Some(e) => self.model().log.dom().contains(index.0 as int) && e@
                    == self.model().log[index.0 as int],
                None => !self.model().log.dom().contains(index.0 as int),
            },
            r matches Err(e) ==> Self::fails_with(e),
    ;

    /// Reads the entries from `from` to `to` into `out`, which is empty before,
    /// their payloads into `buf`.
    fn read_entries<'a>(
        &self,
        from: LogIndex,
        to: LogIndex,
        out: &mut Vec<LogEntry<'a>>,
        buf: &'a mut Vec<u8>,
    ) -> (r: Result<(), RaftError>)
        requires
            old(out)@.len() == 0,
        ensures
            r is Ok ==> is_log_run(
                self.model().log,
                from.0 as int,
                to.0 as int,
                crate::protocol::message::records(final(out)@),
            ),
            r matches Err(e) ==> Self::fails_with(e),
    ;

    /// Writes `entries` into the log, which then ends with them.
    fn append_entries(&mut self, entries: &[LogEntry<'_>]) -> (r: Result<(), RaftError>)
        ensures
            r is Ok ==> {
                &&& final(self).model().log == log_with(
                    old(self).model().log,
                    crate::protocol::message::records(entries@),
                )
                &&& final(self).model().tip == tip_with(
                    old(self).model().tip,
                    crate::protocol::message::records(entries@),
                )
                &&& final(self).model().hard_state == old(self).model().hard_state
                &&& final(self).model().snapshot == old(self).model().snapshot
            },
            r matches Err(e) ==> refused_cleanly(e, old(self).model(), final(self).model()),
            r matches Err(e) ==> Self::fails_with(e),
    ;

    /// Removes the entries from `from` on.
    fn truncate_suffix(&mut self, from: LogIndex) -> (r: Result<(), RaftError>)
        ensures
            r is Ok ==> {
                &&& final(self).model().log == log_before(old(self).model().log, from.0 as int)
                &&& final(self).model().hard_state == old(self).model().hard_state
                &&& final(self).model().snapshot == old(self).model().snapshot
                &&& is_tip(
                    final(self).model().tip,
                    final(self).model().log,
                    final(self).model().snapshot,
                )
            },
            r matches Err(e) ==> refused_cleanly(e, old(self).model(), final(self).model()),
            r matches Err(e) ==> Self::fails_with(e),
    ;

    /// Removes the entries before `up_to`.
    fn truncate_before(&mut self, up_to: LogIndex) -> (r: Result<(), RaftError>)
        ensures
            r is Ok ==> {
                &&& final(self).model().log == log_from(old(self).model().log, up_to.0 as int)
                &&& final(self).model().hard_state == old(self).model().hard_state
                &&& final(self).model().snapshot == old(self).model().snapshot
                &&& is_tip(
                    final(self).model().tip,
                    final(self).model().log,
                    final(self).model().snapshot,
                )
            },
            r matches Err(e) ==> refused_cleanly(e, old(self).model(), final(self).model()),
            r matches Err(e) ==> Self::fails_with(e),
    ;

    /// The position of the log's tip.
    fn last_log_position(&self) -> (r: Result<(LogIndex, Term), RaftError>)
        ensures
            r matches Ok(p) ==> p == self.model().tip,
            r matches Err(e) ==> Self::fails_with(e),
    ;

    /// Makes a snapshot durable.
    fn save_snapshot(&mut self, meta: &SnapshotMeta, bytes: &[u8]) -> (r: Result<(), RaftError>)
        ensures
            r is Ok ==> {
                &&& final(self).model().snapshot == Some((*meta, bytes@))
                &&& final(self).model().hard_state == old(self).model().hard_state
                &&& final(self).model().log == old(self).model().log
                &&& final(self).model().tip == old(self).model().tip
            },
            r matches Err(e) ==> refused_cleanly(e, old(self).model(), final(self).model()),
            r matches Err(e) ==> Self::fails_with(e),
    ;

    /// What the saved snapshot covers, without reading its bytes.
    fn load_snapshot_meta(&self) -> (r: Result<Option<SnapshotMeta>, RaftError>)
        ensures
            r matches Ok(m) ==> match self.model().snapshot {
                Some((meta, _)) => m == Some(meta),
                None => m is None,
            },
            r matches Err(e) ==> Self::fails_with(e),
    ;

    /// The saved snapshot.
    fn load_snapshot(&self) -> (r: Result<Option<(SnapshotMeta, Vec<u8>)>, RaftError>)
        ensures
            r matches Ok(s) ==> match self.model().snapshot {
                Some((meta, bytes)) => s matches Some((m, b)) && m == meta && b@ == bytes,
                None => s is None,
            },
            r matches Err(e) ==> Self::fails_with(e),
    ;
}

/// Whether a storage of this kind ever fails.
pub open spec fn may_fail<S: RaftStorage>() -> bool {
    exists|e: RaftError| #[trigger] S::fails_with(e)
}

/// The bytes of a state machine's snapshot.
pub type Image = Seq<u8>;

/// What a state machine has been through.
#[verifier::ext_equal]
pub struct MachineModel {
    /// The snapshot that it was last restored from.
    pub image: Option<Image>,
    /// The commands applied to it since then, in order.
    pub applied: Seq<(LogIndex, Seq<u8>)>,
}

impl MachineModel {
    /// The state machine with one more command applied.
    pub open spec fn applying(self, index: LogIndex, payload: Seq<u8>) -> MachineModel {
        MachineModel { applied: self.applied.push((index, payload)), ..self }
    }
}

/// The replicated state machine, implemented by the embedder.
pub trait StateMachine: Sized {
    /// What the state machine has been through.
    spec fn model(&self) -> MachineModel;

    /// Whether `bytes` is a snapshot of the present state.
    spec fn captured_by(&self, bytes: Image) -> bool;

    /// Whether `e` is an error that this kind of state machine fails with. One
    /// that never fails takes in none.
    spec fn fails_with(e: RaftError) -> bool;

    /// Applies the committed command at `index`.
    fn apply_at(&mut self, index: LogIndex, payload: &[u8]) -> (r: Result<(), RaftError>)
        ensures
            r is Ok ==> final(self).model() == old(self).model().applying(index, payload@),
            r matches Err(e) ==> Self::fails_with(e),
    ;

    /// A snapshot of the present state.
    fn snapshot(&self) -> (r: Result<Vec<u8>, RaftError>)
        ensures
            r matches Ok(bytes) ==> self.captured_by(bytes@),
            r matches Err(e) ==> Self::fails_with(e),
    ;

    /// Replaces the state by that of a snapshot.
    fn restore(&mut self, bytes: &[u8]) -> (r: Result<(), RaftError>)
        ensures
            r is Ok ==> final(self).model() == (MachineModel {
                image: Some(bytes@),
                applied: Seq::empty(),
            }),
            r matches Err(e) ==> Self::fails_with(e),
    ;
}

} // verus!
