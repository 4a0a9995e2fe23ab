//! What stays true when a write fails.

use vstd::prelude::*;

use super::election::vote_outcome;
use super::log_compaction::compaction_failure;
use super::raft_node::NodeModel;
use super::replication::handler::append_outcome;
use super::replication::propose::proposal_begun;
use super::snapshot::completion_outcome;
use crate::entry::EntryRecord;
use crate::error::RaftError;
use crate::protocol::codec::wire::{AppendEntries, RequestVote};
use crate::state::{Role, SnapshotMeta};
use crate::traits::{RaftStorage, StateMachine, StorageModel};
use crate::types::PeerId;

verus! {

/// A proposal that fails is not in the leader's log as far as the leader knows: it goes on
/// from the tip it had, commits nothing, and stays in the lead. Where resources ran out,
/// the storage holds what it held.
pub proof fn law_failed_proposals_leave_the_leader_alone(
    before: NodeModel,
    stored: StorageModel,
    payloads: Seq<&[u8]>,
    now_ms: u64,
    e: RaftError,
    after: NodeModel,
    stored_after: StorageModel,
)
    requires
        proposal_begun(before, stored, payloads, now_ms, Err(e), after, stored_after),
    ensures
        after.last_log == before.last_log,
        after.arena == before.arena,
        after.soft == before.soft && after.hard == before.hard,
        after.last_applied == before.last_applied,
        before.soft.role != Role::Leader ==> after == before && stored_after == stored,
        e matches RaftError::Io(f) ==> (!(f.kind is Other) ==> stored_after == stored),
{
}

/// A node keeps to a vote that may have been written. Where a request fails, either the
/// storage was not touched, or the node counts its vote as given to the candidate, or it
/// has taken over a newer term.
pub proof fn law_votes_that_may_be_durable_are_kept(
    before: NodeModel,
    stored: StorageModel,
    msg: RequestVote,
    e: RaftError,
    after: NodeModel,
    stored_after: StorageModel,
)
    requires
        vote_outcome(before, stored, msg, Err(e), after, stored_after),
    ensures
        msg.term <= before.hard.current_term.0 && after.hard.voted_for != Some(
            PeerId(msg.candidate_id),
        ) ==> stored_after == stored,
        msg.term <= before.hard.current_term.0 ==> after.hard.current_term
            == before.hard.current_term,
        msg.term > before.hard.current_term.0 ==> after.hard.current_term.0 == msg.term,
        msg.term <= before.hard.current_term.0 && before.hard.voted_for is Some
            ==> after.hard.voted_for == before.hard.voted_for,
        after.last_log == before.last_log && after.soft.commit_index == before.soft.commit_index,
{
}

/// A batch that fails commits nothing and applies nothing, whatever became of the log, and
/// leaves the node at the term of the request or at its own if that is newer.
pub proof fn law_failed_batches_commit_nothing(
    before: NodeModel,
    stored: StorageModel,
    msg: AppendEntries,
    entries: Seq<EntryRecord>,
    now_ms: u64,
    e: RaftError,
    after: NodeModel,
    stored_after: StorageModel,
)
    requires
        append_outcome(before, stored, msg, entries, now_ms, Err(e), after, stored_after),
    ensures
        after.soft.commit_index == before.soft.commit_index,
        after.last_applied == before.last_applied,
        msg.term >= before.hard.current_term.0,
        after.hard.current_term.0 == msg.term,
        msg.term == before.hard.current_term.0 ==> after.hard == before.hard,
{
}

/// A compaction that fails loses nothing: the node has applied and committed what it had,
/// its log ends where it ended, and where resources ran out the log is whole.
pub proof fn law_failed_compactions_lose_nothing<S: RaftStorage, M: StateMachine>(
    e: RaftError,
    before: NodeModel,
    stored: StorageModel,
    machine: M,
    up_to: u64,
    after: NodeModel,
    stored_after: StorageModel,
)
    requires
        compaction_failure::<S, M>(e, before, stored, machine, up_to, after, stored_after),
    ensures
        after.last_applied == before.last_applied,
        after.soft == before.soft && after.hard == before.hard,
        after.last_log == before.last_log,
        after.counters == before.counters,
        e matches RaftError::Io(f) ==> (!(f.kind is Other) ==> stored_after.log == stored.log
            && stored_after.hard_state == stored.hard_state),
{
}

/// An installation that fails takes nothing back: the log ends where it ended, the commit
/// index does not go back, and nothing counts as applied that was not. Where resources ran
/// out the log is whole.
pub proof fn law_failed_installations_take_nothing_back(
    before: NodeModel,
    stored: StorageModel,
    meta: SnapshotMeta,
    bytes: Seq<u8>,
    e: RaftError,
    after: NodeModel,
    stored_after: StorageModel,
)
    requires
        completion_outcome(before, stored, meta, bytes, Err(e), after, stored_after),
    ensures
        after.last_log == before.last_log && after.boundary == before.boundary,
        after.arena == before.arena,
        after.soft.commit_index.0 >= before.soft.commit_index.0,
        after.soft.commit_index.0 == before.soft.commit_index.0 || after.soft.commit_index
            == meta.last_included_index,
        after.last_applied == before.last_applied && after.hard == before.hard,
        e matches RaftError::Io(f) ==> (!(f.kind is Other) ==> stored_after.log == stored.log
            && stored_after.hard_state == stored.hard_state),
{
}

} // verus!
