//! Applying committed entries to a group's state machine.

use vstd::prelude::*;

use crate::error::RaftError;
use crate::node::laws::law_changes_keep_roles_apart;
use crate::node::log_compaction::maybe_compact_outcome;
use crate::node::membership::{
    apply_if_config_change, config_change_outcome, decode_config, empties_the_cluster,
    is_empty_change, law_control_entries_are_told_apart, noop_bytes, ConfigChange,
    CONFIG_CHANGE_MAGIC,
};
use crate::node::raft_node::{saved, NodeModel, RaftNode};
use crate::node::replication::shared::is_missing_term;
use crate::node::snapshot_install::{restore_failure, restore_outcome};
use crate::state::{Role, SnapshotMeta};
use crate::traits::{MachineModel, RaftStorage, StateMachine, StorageModel};
use crate::types::LogIndex;

verus! {

/// A node, its storage and its state machine.
#[verifier::ext_equal]
pub struct GroupModel {
    pub node: NodeModel,
    pub stored: StorageModel,
    pub machine: MachineModel,
}

/// `a + b`, or the largest `u64` where that is more.
pub open spec fn sum_or_max(a: u64, b: int) -> u64 {
    if a + b > u64::MAX {
        u64::MAX
    } else {
        (a + b) as u64
    }
}

impl GroupModel {
    /// The group once a membership change has been put into effect. A leader
    /// that is no longer a voter gives way.
    pub open spec fn reconfigured(self, c: ConfigChange) -> GroupModel {
        let changed = self.node.changed(c);
        if self.node.unseated_by(c) {
            GroupModel {
                node: changed.stepped_down(self.node.hard.current_term),
                stored: saved(self.stored, changed.at_term(self.node.hard.current_term).hard),
                ..self
            }
        } else {
            GroupModel { node: changed, ..self }
        }
    }

    /// The group once the entry at `index` has taken effect: a membership
    /// change on the node, a no-op nowhere, and anything else on the state
    /// machine.
    pub open spec fn effected(self, index: LogIndex) -> GroupModel {
        let payload = self.stored.log[index.0 as int].payload;
        match decode_config(payload) {
            Some(c) => self.reconfigured(c),
            None => if payload == noop_bytes() {
                self
            } else {
                GroupModel { machine: self.machine.applying(index, payload), ..self }
            },
        }
    }

    /// The group once the entry at `index` has been applied. The applied cursor
    /// moves to it, and it counts towards the next compaction.
    pub open spec fn applied_one(self, index: LogIndex) -> GroupModel {
        let g = self.effected(index);
        let size = self.stored.log[index.0 as int].payload.len();
        GroupModel {
            node: NodeModel {
                last_applied: index,
                debt_entries: sum_or_max(g.node.debt_entries, 1),
                debt_bytes: sum_or_max(g.node.debt_bytes, size as int),
                ..g.node
            },
            ..g
        }
    }

    /// The group once everything after its applied cursor up to `commit` has
    /// been applied, as far as the log holds it.
    pub open spec fn applied_to(self, commit: u64) -> GroupModel
        decreases commit - self.node.last_applied.0,
    {
        let next = LogIndex((self.node.last_applied.0 + 1) as u64);
        if self.node.last_applied.0 >= commit || !self.stored.log.dom().contains(next.0 as int) {
            self
        } else {
            self.applied_one(next).applied_to(commit)
        }
    }
}

/// Whether applying went through `caught_up`: first the state machine catches
/// up with the saved snapshot, then it takes every committed entry in order, and
/// then the log is compacted if that is due.
pub open spec fn applied_through<M: StateMachine>(
    before: GroupModel,
    restored: bool,
    caught_up: GroupModel,
    compacted: Option<SnapshotMeta>,
    after: GroupModel,
    machine_after: M,
) -> bool {
    let applied = caught_up.applied_to(caught_up.node.soft.commit_index.0);
    &&& restore_outcome(
        before.node,
        before.stored,
        before.machine,
        Ok(restored),
        caught_up.node,
        caught_up.stored,
        caught_up.machine,
    )
    &&& after.machine == applied.machine
    &&& maybe_compact_outcome(
        applied.node,
        applied.stored,
        machine_after,
        Ok(compacted),
        after.node,
        after.stored,
    )
}

/// Whether a group cannot go on over any storage and state machine, and `e` says
/// why: the next entry is a void membership change, or neither the node nor the
/// log knows the term at which a compaction would cut.
pub open spec fn apply_fault(e: RaftError, g: GroupModel) -> bool {
    let at = g.node.last_applied.0;
    ||| {
        &&& is_empty_change(e)
        &&& g.stored.log.dom().contains(at + 1)
        &&& decode_config(g.stored.log[at + 1].payload) matches Some(c) && empties_the_cluster(c)
    }
    ||| {
        &&& is_missing_term(e, at)
        &&& g.node.known_term_at(at) is None
        &&& g.stored.term_of(at as int) is None
    }
}

/// Whether applying went through `caught_up` and got as far as `stop`.
pub open spec fn applied_until(
    before: GroupModel,
    restored: bool,
    caught_up: GroupModel,
    stop: GroupModel,
) -> bool {
    &&& restore_outcome(
        before.node,
        before.stored,
        before.machine,
        Ok(restored),
        caught_up.node,
        caught_up.stored,
        caught_up.machine,
    )
    &&& stop == caught_up.applied_to(stop.node.last_applied.0)
}

/// How a group is left that applying failed in at `stop`: the next entry could not
/// be read, its membership change failed, the state machine failed on it, or the
/// compaction at the end failed.
pub open spec fn apply_stopped<M: StateMachine>(
    e: RaftError,
    stop: GroupModel,
    after: GroupModel,
    machine_after: M,
) -> bool {
    let next = stop.node.last_applied.0 + 1;
    ||| after == stop
    ||| {
        &&& stop.stored.log.dom().contains(next)
        &&& decode_config(stop.stored.log[next].payload) matches Some(c)
        &&& config_change_outcome(
            stop.node,
            stop.stored,
            c,
            Err(e),
            after.node,
            after.stored,
        )
        &&& after.machine == stop.machine
    }
    ||| {
        &&& stop.stored.log.dom().contains(next)
        &&& M::fails_with(e)
        &&& after.node == stop.node
        &&& after.stored == stop.stored
    }
    ||| {
        &&& maybe_compact_outcome(
            stop.node,
            stop.stored,
            machine_after,
            Err(e),
            after.node,
            after.stored,
        )
        &&& after.machine == stop.machine
    }
}

/// How applying came out. Even where it fails on the way, what is applied stays
/// applied, and what is committed stays committed.
#[verifier::opaque]
pub open spec fn apply_outcome<S: RaftStorage, M: StateMachine>(
    before: GroupModel,
    r: Result<(), RaftError>,
    after: GroupModel,
    machine_after: M,
) -> bool {
    &&& after.node.last_applied.0 >= before.node.last_applied.0
    &&& after.node.soft.commit_index.0 >= before.node.soft.commit_index.0
    &&& r matches Err(e) ==> {
        &&& S::fails_with(e) || M::fails_with(e) || apply_fault(e, after)
        &&& restore_failure::<S, M>(
            e,
            before.node,
            before.stored,
            before.machine,
            after.node,
            after.stored,
            after.machine,
        ) || exists|restored: bool, caught_up: GroupModel, stop: GroupModel| #[trigger]
            applied_until(before, restored, caught_up, stop) && apply_stopped(
                e,
                stop,
                after,
                machine_after,
            )
    }
    &&& r is Ok ==> exists|
        restored: bool,
        caught_up: GroupModel,
        compacted: Option<SnapshotMeta>,
    | #[trigger]
        applied_through(before, restored, caught_up, compacted, after, machine_after)
}

/// Applying one more entry.
proof fn lemma_applied_step(g: GroupModel, k: u64)
    requires
        g.node.last_applied.0 <= k < u64::MAX,
        g.applied_to(k).node.last_applied.0 == k,
        g.stored.log.dom().contains(k + 1),
    ensures
        g.applied_to((k + 1) as u64) == g.applied_to(k).applied_one(LogIndex((k + 1) as u64)),
    decreases k - g.node.last_applied.0,
{
    let next = LogIndex((g.node.last_applied.0 + 1) as u64);
    if g.node.last_applied.0 < k {
        assert(g.stored.log.dom().contains(next.0 as int)) by {
            if !g.stored.log.dom().contains(next.0 as int) {
                assert(g.applied_to(k) == g);
            }
        }
        lemma_applied_step(g.applied_one(next), k);
    } else {
        let one = g.applied_one(next);
        assert(one.applied_to((k + 1) as u64) == one);
    }
}

/// Whatever comes of a membership change, the node stays well formed.
proof fn lemma_changes_keep_form(m: NodeModel, payload: Seq<u8>)
    requires
        m.wf(),
    ensures
        decode_config(payload) matches Some(c) ==> m.changed(c).wf() && m.reconfigured(c).wf(),
{
    if decode_config(payload) is Some {
        let c = decode_config(payload)->0;
        law_changes_keep_roles_apart(m, c);
        assert(m.changed(c).peers == m.reconfigured(c).peers);
        assert(m.changed(c).learners == m.reconfigured(c).learners);
    }
}

/// Commands are applied in log order, each once, none that is not committed,
/// and none again that was applied before.
pub proof fn law_commands_apply_in_order(g: GroupModel, commit: u64)
    ensures
        ({
            let h = g.applied_to(commit);
            let n = g.machine.applied.len() as int;
            &&& h.machine.image == g.machine.image
            &&& h.machine.applied.len() >= n
            &&& h.machine.applied.take(n) == g.machine.applied
            &&& h.node.last_applied.0 >= g.node.last_applied.0
            &&& g.node.last_applied.0 <= commit ==> h.node.last_applied.0 <= commit
            &&& forall|i: int|
                n <= i < h.machine.applied.len() ==> {
                    let (index, payload) = #[trigger] h.machine.applied[i];
                    &&& g.node.last_applied.0 < index.0 <= h.node.last_applied.0
                    &&& payload == g.stored.log[index.0 as int].payload
                }
            &&& forall|i: int, j: int|
                n <= i < j < h.machine.applied.len() ==> (#[trigger] h.machine.applied[i]).0.0 < (
                #[trigger] h.machine.applied[j]).0.0
        }),
    decreases commit - g.node.last_applied.0,
{
    let next = LogIndex((g.node.last_applied.0 + 1) as u64);
    let n = g.machine.applied.len() as int;
    if g.node.last_applied.0 >= commit || !g.stored.log.dom().contains(next.0 as int) {
        assert(g.machine.applied.take(n) =~= g.machine.applied);
    } else {
        let s = g.applied_one(next);
        law_commands_apply_in_order(s, commit);
        let h = s.applied_to(commit);
        let k = s.machine.applied.len() as int;
        assert(s.stored.log == g.stored.log);
        assert(h.machine.applied.take(n) =~= s.machine.applied.take(n));
        assert(s.machine.applied.take(n) =~= g.machine.applied);
        assert forall|i: int| n <= i < h.machine.applied.len() implies {
            let (index, payload) = #[trigger] h.machine.applied[i];
            &&& g.node.last_applied.0 < index.0 <= h.node.last_applied.0
            &&& payload == g.stored.log[index.0 as int].payload
        } by {
            if i < k {
                assert(h.machine.applied.take(k)[i] == h.machine.applied[i]);
            }
        }
        assert forall|i: int, j: int| n <= i < j < h.machine.applied.len() implies (
        #[trigger] h.machine.applied[i]).0.0 < (#[trigger] h.machine.applied[j]).0.0 by {
            if i < k {
                assert(h.machine.applied.take(k)[i] == h.machine.applied[i]);
            }
        }
    }
}

/// Every committed entry takes effect: where the log holds everything from the applied
/// cursor to the commit index, the cursor ends up there, and each entry on the way that
/// is a command of the application is handed to the state machine, with its own index
/// and payload. Each of them counts towards the next compaction.
pub proof fn law_committed_commands_reach_the_machine(g: GroupModel, commit: u64, i: u64)
    requires
        g.node.last_applied.0 < i <= commit,
        forall|j: int|
            g.node.last_applied.0 < j <= commit ==> #[trigger] g.stored.log.dom().contains(j),
    ensures
        ({
            let h = g.applied_to(commit);
            let payload = g.stored.log[i as int].payload;
            &&& h.node.last_applied.0 == commit
            &&& payload.len() == 0 || payload[0] != CONFIG_CHANGE_MAGIC
                ==> h.machine.applied.contains((LogIndex(i), payload))
            &&& h.stored.log == g.stored.log
            &&& g.node.debt_entries + (commit - g.node.last_applied.0) <= u64::MAX
                ==> h.node.debt_entries == g.node.debt_entries + (commit - g.node.last_applied.0)
        }),
    decreases commit - g.node.last_applied.0,
{
    let next = LogIndex((g.node.last_applied.0 + 1) as u64);
    assert(g.stored.log.dom().contains(next.0 as int));
    let s = g.applied_one(next);
    let h = s.applied_to(commit);
    let payload = g.stored.log[i as int].payload;
    assert(s.stored.log == g.stored.log);
    law_commands_apply_in_order(s, commit);
    if i == next.0 {
        if payload.len() == 0 || payload[0] != CONFIG_CHANGE_MAGIC {
            law_control_entries_are_told_apart(payload);
            let n = g.machine.applied.len() as int;
            let k = s.machine.applied.len() as int;
            assert(s.machine.applied[n] == (LogIndex(i), payload));
            assert(h.machine.applied.take(k)[n] == h.machine.applied[n]);
            assert(h.machine.applied[n] == (LogIndex(i), payload));
        }
        if next.0 < commit {
            law_committed_commands_reach_the_machine(s, commit, commit);
        } else {
            assert(s.applied_to(commit) == s);
        }
    } else {
        law_committed_commands_reach_the_machine(s, commit, i);
    }
}

/// Applying brings a group up to its commit index: where no newer snapshot waits and the
/// log holds what is missing, the applied cursor ends up there, and the state machine has
/// had every command on the way.
pub proof fn law_groups_catch_up_with_their_commits<S: RaftStorage, M: StateMachine>(
    before: GroupModel,
    after: GroupModel,
    machine_after: M,
    i: u64,
)
    requires
        apply_outcome::<S, M>(before, Ok(()), after, machine_after),
        before.stored.snapshot is None || (before.stored.snapshot->0).0.last_included_index.0
            <= before.node.last_applied.0,
        before.node.last_applied.0 < i <= before.node.soft.commit_index.0,
        forall|j: int|
            before.node.last_applied.0 < j <= before.node.soft.commit_index.0 ==> #[trigger]
                before.stored.log.dom().contains(j),
    ensures
        after.node.last_applied == before.node.soft.commit_index,
        ({
            let payload = before.stored.log[i as int].payload;
            payload.len() == 0 || payload[0] != CONFIG_CHANGE_MAGIC
                ==> after.machine.applied.contains((LogIndex(i), payload))
        }),
        after.machine.image == before.machine.image,
{
    reveal(apply_outcome);
    let (restored, caught_up, compacted) = choose|
        restored: bool,
        caught_up: GroupModel,
        compacted: Option<SnapshotMeta>,
    | #[trigger]
        applied_through(before, restored, caught_up, compacted, after, machine_after);
    assert(caught_up == before);
    law_committed_commands_reach_the_machine(before, before.node.soft.commit_index.0, i);
    law_commands_apply_in_order(before, before.node.soft.commit_index.0);
}

/// Applies every committed entry that has not been applied yet.
pub fn apply_group<S: RaftStorage, M: StateMachine>(
    node: &mut RaftNode,
    storage: &mut S,
    machine: &mut M,
    buf: &mut [u8],
) -> (r: Result<(), RaftError>)
    requires
        old(node)@.wf(),
    ensures
        apply_outcome::<S, M>(
            (GroupModel {
                node: old(node)@,
                stored: old(storage).model(),
                machine: old(machine).model(),
            }),
            r,
            (GroupModel {
                node: final(node)@,
                stored: final(storage).model(),
                machine: final(machine).model(),
            }),
            *final(machine),
        ),
        final(node)@.wf(),
{
    proof {
        reveal(apply_outcome);
    }
    let done: bool = match node.restore_state_machine_from_snapshot(storage, machine) {
        Err(e) => {
            return Err(e);
        },
        Ok(done) => done,
    };
    let ghost caught_up = GroupModel {
        node: node@,
        stored: storage.model(),
        machine: machine.model(),
    };
    let ghost start = GroupModel {
        node: old(node)@,
        stored: old(storage).model(),
        machine: old(machine).model(),
    };
    let commit: u64 = node.commit_index().0;
    let mut more: bool = true;
    assert(applied_until(start, done, caught_up, caught_up));
    while more && node.last_applied.0 < commit
        invariant
            node@.soft.commit_index.0 == commit,
            commit >= old(node)@.soft.commit_index.0,
            old(node)@.last_applied.0 <= node@.last_applied.0 <= commit,
            node@.wf(),
            start.node == old(node)@,
            start.stored == old(storage).model(),
            start.machine == old(machine).model(),
            ({
                let now = GroupModel {
                    node: node@,
                    stored: storage.model(),
                    machine: machine.model(),
                };
                &&& now.applied_to(commit) == caught_up.applied_to(commit)
                &&& applied_until(start, done, caught_up, now)
                &&& now.stored.log == caught_up.stored.log
                &&& caught_up.node.last_applied.0 <= now.node.last_applied.0
                &&& !more ==> now.applied_to(commit) == now
            }),
        decreases commit - node.last_applied.0, if more { 1nat } else { 0nat },
    {
        proof {
            reveal(apply_outcome);
        }
        let ghost before = GroupModel {
            node: node@,
            stored: storage.model(),
            machine: machine.model(),
        };
        let next = LogIndex(node.last_applied.0 + 1);
        match storage.entry_at(next, buf) {
            Err(e) => {
                return Err(e);
            },
            Ok(None) => {
                more = false;
            },
            Ok(Some(entry)) => {
                let payload = entry.payload.0;
                let size: u64 = payload.len() as u64;
                assert(payload@ == before.stored.log[next.0 as int].payload);
                proof {
                    lemma_changes_keep_form(before.node, payload@);
                }
                let consumed: bool = match apply_if_config_change(node, storage, payload) {
                    Err(e) => {
                        return Err(e);
                    },
                    Ok(consumed) => consumed,
                };
                if !consumed {
                    match machine.apply_at(next, payload) {
                        Err(e) => {
                            return Err(e);
                        },
                        Ok(()) => {},
                    }
                }
                assert((GroupModel {
                    node: node@,
                    stored: storage.model(),
                    machine: machine.model(),
                }) == before.effected(next));
                node.set_last_applied(next);
                node.compaction_debt_entries = node.compaction_debt_entries.saturating_add(1);
                node.compaction_debt_bytes = node.compaction_debt_bytes.saturating_add(size);
                assert((GroupModel {
                    node: node@,
                    stored: storage.model(),
                    machine: machine.model(),
                }) == before.applied_one(next));
                proof {
                    lemma_applied_step(caught_up, before.node.last_applied.0);
                }
            },
        }
    }
    let ghost applied = GroupModel {
        node: node@,
        stored: storage.model(),
        machine: machine.model(),
    };
    assert(applied == caught_up.applied_to(commit));
    match node.maybe_compact(storage, machine) {
        Err(e) => Err(e),
        Ok(compacted) => {
            assert(applied_through(
                (GroupModel {
                    node: old(node)@,
                    stored: old(storage).model(),
                    machine: old(machine).model(),
                }),
                done,
                caught_up,
                compacted,
                (GroupModel { node: node@, stored: storage.model(), machine: machine.model() }),
                *machine,
            ));
            Ok(())
        },
    }
}

/// Applying one entry moves the cursor to it, and the entry and the bytes of its payload
/// count towards the next compaction, whatever kind of entry it is.
pub proof fn law_applied_entries_add_to_the_debt(g: GroupModel, index: LogIndex)
    ensures
        ({
            let h = g.applied_one(index);
            let size = g.stored.log[index.0 as int].payload.len();
            &&& h.node.last_applied == index
            &&& g.node.debt_entries < u64::MAX ==> h.node.debt_entries == g.node.debt_entries + 1
            &&& g.node.debt_bytes + size <= u64::MAX ==> h.node.debt_bytes == g.node.debt_bytes
                + size
            &&& h.stored.log == g.stored.log && h.stored.snapshot == g.stored.snapshot
            &&& h.node.soft.commit_index == g.node.soft.commit_index
            &&& h.node.last_log == g.node.last_log
        }),
{
}

/// A leader stays in the lead through a membership change exactly if it still votes.
/// Otherwise it is a follower of nobody, at its own term, and that is durable.
pub proof fn law_leaders_that_leave_give_way(g: GroupModel, c: ConfigChange)
    requires
        g.node.soft.role == Role::Leader,
    ensures
        ({
            let h = g.reconfigured(c);
            &&& h.node.peers.contains(g.node.node_id) ==> h.node.soft == g.node.soft && h.stored
                == g.stored
            &&& !h.node.peers.contains(g.node.node_id) ==> {
                &&& h.node.soft.role == Role::Follower
                &&& h.node.soft.leader_id is None
                &&& h.stored.hard_state == h.node.hard
            }
            &&& h.node.hard.current_term == g.node.hard.current_term
            &&& h.node.soft.commit_index == g.node.soft.commit_index
            &&& h.stored.log == g.stored.log && h.machine == g.machine
        }),
{
}

} // verus!
