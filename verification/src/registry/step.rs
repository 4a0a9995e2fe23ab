//! One frame for one group: deal with it, move the commit index, apply.

use vstd::prelude::*;

use super::apply::{
    apply_group, apply_outcome, law_groups_catch_up_with_their_commits, GroupModel,
};
use super::groups::GroupEntry;
use crate::error::RaftError;
use crate::node::inbound::{inbound_fault, inbound_outcome, InboundAction};
use crate::node::laws::law_inbound_keeps_promises;
use crate::node::raft_node::{NodeModel, RaftNode};
use crate::node::replication::commit_laws::{
    entry_is_of, held_by_majority, law_what_a_majority_has_is_committed,
};
use crate::node::replication::shared::commit_outcome;
use crate::protocol::codec::decode::{decode_fault, decode_message, decodes};
use crate::protocol::message::InboundRaftMessage;
use crate::state::Role;
use crate::traits::{RaftStorage, StateMachine, StorageModel};
use crate::types::PeerId;

verus! {

/// How a frame came out that is tolerated where it can be: one that is not well
/// formed, or that the node refuses, is counted and dropped; only damage to the
/// node's own durable state is an error.
#[verifier::opaque]
pub open spec fn frame_outcome<'a, S: RaftStorage>(
    before: NodeModel,
    stored: StorageModel,
    frame: Seq<u8>,
    now_ms: u64,
    action: InboundAction<'a>,
    r: Result<(), RaftError>,
    after: NodeModel,
    stored_after: StorageModel,
) -> bool {
    match decode_fault(frame) {
        Some(_) => {
            &&& r is Ok
            &&& action is Done
            &&& after == before.frame_dropped()
            &&& stored_after == stored
        },
        None => exists|m: InboundRaftMessage<'a>, h: Result<(), RaftError>, n: NodeModel|
            {
                &&& decodes(frame, m)
                &&& #[trigger] inbound_outcome(
                    before,
                    stored,
                    m.from,
                    m.message,
                    now_ms,
                    action,
                    h,
                    n,
                    stored_after,
                )
                &&& h matches Err(e) ==> S::fails_with(e) || inbound_fault(
                    before,
                    stored,
                    m.from,
                    m.message,
                    now_ms,
                    e,
                    n,
                )
                &&& match h {
                    Ok(()) => r is Ok && after == n,
                    Err(e) => if e.class_spec() is Fatal {
                        r == h && after == n
                    } else {
                        r is Ok && after == n.frame_dropped()
                    },
                }
            },
    }
}

/// Whether a step went through `dealt` and `advanced`: the frame is dealt with,
/// a leader then moves the commit index, and what is committed is applied. An
/// error ends the step where it occurs.
pub open spec fn stepped_through<'a, S: RaftStorage, M: StateMachine>(
    before: GroupModel,
    frame: Seq<u8>,
    now_ms: u64,
    dealt: GroupModel,
    first: Result<(), RaftError>,
    advanced: NodeModel,
    second: Result<(), RaftError>,
    action: InboundAction<'a>,
    r: Result<(), RaftError>,
    after: GroupModel,
    machine_after: M,
) -> bool {
    &&& frame_outcome::<S>(
        before.node,
        before.stored,
        frame,
        now_ms,
        action,
        first,
        dealt.node,
        dealt.stored,
    )
    &&& dealt.machine == before.machine
    &&& if first is Err {
        r == first && after == dealt
    } else {
        &&& if dealt.node.leads() {
            commit_outcome(dealt.node, dealt.stored, second, advanced) && (second matches Err(e)
                ==> S::fails_with(e))
        } else {
            second is Ok && advanced == dealt.node
        }
        &&& if second is Err {
            r == second && after == (GroupModel { node: advanced, ..dealt })
        } else {
            apply_outcome::<S, M>(
                (GroupModel { node: advanced, ..dealt }),
                r,
                after,
                machine_after,
            )
        }
    }
}

/// How a step came out, short of the sanctioned campaign it may leave behind.
#[verifier::opaque]
pub open spec fn step_outcome<'a, S: RaftStorage, M: StateMachine>(
    before: GroupModel,
    frame: Seq<u8>,
    now_ms: u64,
    action: InboundAction<'a>,
    r: Result<(), RaftError>,
    after: GroupModel,
    machine_after: M,
) -> bool {
    exists|
        dealt: GroupModel,
        first: Result<(), RaftError>,
        advanced: NodeModel,
        second: Result<(), RaftError>,
    | #[trigger]
        stepped_through::<S, M>(
            before,
            frame,
            now_ms,
            dealt,
            first,
            advanced,
            second,
            action,
            r,
            after,
            machine_after,
        )
}

/// Whether a frame was taken that left the group at `end`: a sanction that it
/// brought is used up, and counts if it is still good.
pub open spec fn taken<'a, S: RaftStorage, M: StateMachine>(
    before: GroupModel,
    frame: Seq<u8>,
    now_ms: u64,
    end: GroupModel,
    action: InboundAction<'a>,
    forced: bool,
    r: Result<(), RaftError>,
    after: GroupModel,
    machine_after: M,
) -> bool {
    &&& step_outcome::<S, M>(before, frame, now_ms, action, r, end, machine_after)
    &&& after == (GroupModel { node: NodeModel { forced: None, ..end.node }, ..end })
    &&& forced == (end.node.forced == Some(end.node.hard.current_term) && !end.node.leads()
        && end.node.votes())
}

impl RaftNode {
    /// Deals with one frame, tolerating what can be tolerated.
    pub fn take_frame<'a, S: RaftStorage>(
        &mut self,
        storage: &mut S,
        frame: &'a [u8],
        now_ms: u64,
    ) -> (r: (InboundAction<'a>, Result<(), RaftError>))
        ensures
            frame_outcome::<S>(
                old(self)@,
                old(storage).model(),
                frame@,
                now_ms,
                r.0,
                r.1,
                final(self)@,
                final(storage).model(),
            ),
            old(self)@.wf() ==> final(self)@.wf(),
    {
        let inbound: InboundRaftMessage<'a> = match decode_message(frame) {
            Err(_) => {
                proof {
                    reveal(frame_outcome);
                }
                self.metrics.inc_frames_dropped_nonfatal();
                return (InboundAction::Done, Ok(()));
            },
            Ok(inbound) => inbound,
        };
        proof {
            crate::node::inbound::law_decoded_batches_hold_together(frame@, inbound);
        }
        let (action, handled) = self.handle_inbound(storage, inbound, now_ms);
        let ghost h = handled;
        let ghost n = self@;
        proof {
            reveal(frame_outcome);
            assert(inbound_outcome(
                old(self)@,
                old(storage).model(),
                inbound.from,
                inbound.message,
                now_ms,
                action,
                h,
                n,
                storage.model(),
            ));
            law_inbound_keeps_promises(
                old(self)@,
                old(storage).model(),
                inbound.from,
                inbound.message,
                now_ms,
                action,
                h,
                n,
                storage.model(),
            );
        }
        match handled {
            Ok(()) => (action, Ok(())),
            Err(e) => {
                if e.is_fatal() {
                    (action, Err(e))
                } else {
                    self.metrics.inc_frames_dropped_nonfatal();
                    (action, Ok(()))
                }
            },
        }
    }
}

impl<S: RaftStorage, M: StateMachine> GroupEntry<S, M> {
    /// Takes one frame, but for the campaign that it may sanction.
    fn run_frame<'a>(&mut self, frame: &'a [u8], now_ms: u64, buf: &mut [u8]) -> (r: (
        InboundAction<'a>,
        Result<(), RaftError>,
    ))
        requires
            old(self).node@.wf(),
        ensures
            final(self).node@.wf(),
            step_outcome::<S, M>(
                old(self).model(),
                frame@,
                now_ms,
                r.0,
                r.1,
                final(self).model(),
                final(self).machine,
            ),
    {
        proof {
            reveal(step_outcome);
        }
        let ghost before = self.model();
        let (action, first) = self.node.take_frame(&mut self.storage, frame, now_ms);
        let ghost dealt = self.model();
        let ghost one = first;
        match first {
            Err(e) => {
                assert(stepped_through::<S, M>(
                    before,
                    frame@,
                    now_ms,
                    dealt,
                    one,
                    dealt.node,
                    Ok(()),
                    action,
                    one,
                    self.model(),
                    self.machine,
                ));
                return (action, Err(e));
            },
            Ok(()) => {},
        }
        let second: Result<(), RaftError> = if self.node.is_leader() {
            self.node.try_advance_commit_index(&self.storage)
        } else {
            Ok(())
        };
        let ghost advanced = self.node@;
        let ghost two = second;
        let out: Result<(), RaftError> = match second {
            Err(e) => Err(e),
            Ok(()) => apply_group(
                &mut self.node,
                &mut self.storage,
                &mut self.machine,
                buf,
            ),
        };
        assert(stepped_through::<S, M>(
            before,
            frame@,
            now_ms,
            dealt,
            one,
            advanced,
            two,
            action,
            out,
            self.model(),
            self.machine,
        ));
        (action, out)
    }

    /// Takes one frame: what it calls for, whether a campaign is sanctioned
    /// now, and how it went.
    pub fn step<'a>(&mut self, frame: &'a [u8], now_ms: u64, buf: &mut [u8]) -> (r: (
        InboundAction<'a>,
        bool,
        Result<(), RaftError>,
    ))
        requires
            old(self).node@.wf(),
        ensures
            final(self).node@.wf(),
            exists|end: GroupModel| #[trigger]
                taken::<S, M>(
                    old(self).model(),
                    frame@,
                    now_ms,
                    end,
                    r.0,
                    r.1,
                    r.2,
                    final(self).model(),
                    final(self).machine,
                ),
    {
        let ghost before = self.model();
        let (action, out) = self.run_frame(frame, now_ms, buf);
        let ghost end = self.model();
        let forced: bool = self.node.take_forced_campaign();
        let ret = (action, forced, out);
        assert(taken::<S, M>(
            before,
            frame@,
            now_ms,
            end,
            ret.0,
            ret.1,
            ret.2,
            final(self).model(),
            final(self).machine,
        ));
        ret
    }
}

/// A frame that makes no sense harms nobody: it is counted, calls for nothing, and leaves
/// the node, its storage and its other counters as they were.
pub proof fn law_senseless_frames_are_only_counted<'a, S: RaftStorage>(
    before: NodeModel,
    stored: StorageModel,
    frame: Seq<u8>,
    now_ms: u64,
    action: InboundAction<'a>,
    r: Result<(), RaftError>,
    after: NodeModel,
    stored_after: StorageModel,
)
    requires
        frame_outcome::<S>(before, stored, frame, now_ms, action, r, after, stored_after),
        decode_fault(frame) is Some,
    ensures
        r is Ok,
        action is Done,
        stored_after == stored,
        after.hard == before.hard && after.soft == before.soft,
        after.last_log == before.last_log && after.progress == before.progress,
        after.leader_contact == before.leader_contact && after.contact == before.contact,
        before.counters.frames_dropped_nonfatal < u64::MAX
            ==> after.counters.frames_dropped_nonfatal
            == before.counters.frames_dropped_nonfatal + 1,
        after.counters.step_downs == before.counters.step_downs,
        after.counters.elections_started == before.counters.elections_started,
{
    reveal(frame_outcome);
}

/// Only damage to what is durable stops a node: an error that comes out of a frame is of
/// the storage, and neither a message nor a lack of resources is one.
pub proof fn law_only_damage_stops_a_node<'a, S: RaftStorage>(
    before: NodeModel,
    stored: StorageModel,
    frame: Seq<u8>,
    now_ms: u64,
    action: InboundAction<'a>,
    r: Result<(), RaftError>,
    after: NodeModel,
    stored_after: StorageModel,
)
    requires
        frame_outcome::<S>(before, stored, frame, now_ms, action, r, after, stored_after),
        r is Err,
    ensures
        (r->Err_0) is Storage || (r->Err_0) is CorruptLog || (r->Err_0) is Io,
        (r->Err_0) matches RaftError::Io(f) ==> f.kind is Other,
        decode_fault(frame) is None,
{
    reveal(frame_outcome);
}

/// A sanction is used up by the step that brings it. It counts only at the very term at
/// which it was given, and only for a voter that does not lead.
pub proof fn law_sanctions_count_once<'a, S: RaftStorage, M: StateMachine>(
    before: GroupModel,
    frame: Seq<u8>,
    now_ms: u64,
    end: GroupModel,
    action: InboundAction<'a>,
    forced: bool,
    r: Result<(), RaftError>,
    after: GroupModel,
    machine_after: M,
)
    requires
        taken::<S, M>(before, frame, now_ms, end, action, forced, r, after, machine_after),
    ensures
        after.node.forced is None,
        forced ==> {
            &&& end.node.forced matches Some(term) && term.0 == after.node.hard.current_term.0
            &&& after.node.soft.role != Role::Leader
            &&& after.node.peers.contains(after.node.node_id)
        },
        !forced ==> {
            ||| end.node.forced is None
            ||| (end.node.forced->0).0 != after.node.hard.current_term.0
            ||| after.node.soft.role == Role::Leader
            ||| !after.node.peers.contains(after.node.node_id)
        },
        after.node.hard == end.node.hard && after.node.soft == end.node.soft,
        after.stored == end.stored && after.machine == end.machine,
{
}

/// Every frame moves its group on. A leader that has dealt with one has committed, by the end
/// of the step, what a majority has of its own term; and whoever has dealt with one has, by
/// then, applied what is committed, as far as its log holds it.
pub proof fn law_steps_commit_and_apply<'a, S: RaftStorage, M: StateMachine>(
    before: GroupModel,
    frame: Seq<u8>,
    now_ms: u64,
    dealt: GroupModel,
    first: Result<(), RaftError>,
    advanced: NodeModel,
    second: Result<(), RaftError>,
    action: InboundAction<'a>,
    after: GroupModel,
    machine_after: M,
    index: u64,
)
    requires
        stepped_through::<S, M>(
            before,
            frame,
            now_ms,
            dealt,
            first,
            advanced,
            second,
            action,
            Ok(()),
            after,
            machine_after,
        ),
    ensures
        first is Ok && second is Ok,
        dealt.node.soft.role != Role::Leader ==> after.node.soft.commit_index.0
            >= dealt.node.soft.commit_index.0,
        ({
            let m = dealt.node;
            &&& m.soft.role == Role::Leader
            &&& m.joint is None ==> m.peers.no_duplicates() && m.peers.contains(m.node_id)
            &&& m.peers.len() <= 1 || exists|p: PeerId| #[trigger] m.progress.dom().contains(p)
            &&& m.soft.commit_index.0 < index < u64::MAX
            &&& m.soft.commit_index.0 < m.last_log.0.0
            &&& held_by_majority(m, index)
            &&& !held_by_majority(m, (index + 1) as u64)
            &&& entry_is_of(m, dealt.stored, index, m.hard.current_term)
        }) ==> after.node.soft.commit_index.0 >= index,
        ({
            let from = dealt.node.last_applied.0;
            let to = advanced.soft.commit_index.0;
            &&& dealt.stored.snapshot is None || (
            dealt.stored.snapshot->0).0.last_included_index.0 <= from
            &&& advanced.last_applied.0 == from && from < to
            &&& forall|j: int| from < j <= to ==> #[trigger] dealt.stored.log.dom().contains(j)
        }) ==> after.node.last_applied.0 == advanced.soft.commit_index.0,
{
    let g = GroupModel { node: advanced, ..dealt };
    let m = dealt.node;
    assert(second == Ok::<(), RaftError>(())) by {
        assert(second->Ok_0 == ());
    }
    assert(apply_outcome::<S, M>(g, Ok(()), after, machine_after));
    assert(after.node.soft.commit_index.0 >= advanced.soft.commit_index.0) by {
        reveal(apply_outcome);
    }
    if {
        &&& m.soft.role == Role::Leader
        &&& m.joint is None ==> m.peers.no_duplicates() && m.peers.contains(m.node_id)
        &&& m.peers.len() <= 1 || exists|p: PeerId| #[trigger] m.progress.dom().contains(p)
        &&& m.soft.commit_index.0 < index < u64::MAX
        &&& m.soft.commit_index.0 < m.last_log.0.0
        &&& held_by_majority(m, index)
        &&& !held_by_majority(m, (index + 1) as u64)
        &&& entry_is_of(m, dealt.stored, index, m.hard.current_term)
    } {
        law_what_a_majority_has_is_committed(m, dealt.stored, advanced, index);
    }
    let from = dealt.node.last_applied.0;
    let to = advanced.soft.commit_index.0;
    if {
        &&& dealt.stored.snapshot is None || (
        dealt.stored.snapshot->0).0.last_included_index.0 <= from
        &&& advanced.last_applied.0 == from && from < to
        &&& forall|j: int| from < j <= to ==> #[trigger] dealt.stored.log.dom().contains(j)
    } {
        law_groups_catch_up_with_their_commits::<S, M>(g, after, machine_after, to);
    }
}

} // verus!
