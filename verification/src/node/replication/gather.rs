//! Frames that arrive while a proposal waits for its acks.

use vstd::prelude::*;

use super::propose::{ack_outcome, GatherModel, ProposeGather};
use crate::error::RaftError;
use crate::node::inbound::{
    inbound_fault, inbound_outcome, law_decoded_batches_hold_together, InboundAction,
};
use crate::node::progress::AppendAttemptState;
use crate::node::raft_node::{NodeModel, RaftNode};
use crate::protocol::codec::decode::{decode_fault, decode_message, decodes};
use crate::protocol::message::{InboundRaftMessage, RaftMessage};
use crate::traits::{RaftStorage, StorageModel};
use crate::types::{PeerId, Term};

verus! {

/// What a frame calls for while acks are gathered.
#[derive(Clone, Copy, Debug)]
pub enum GatherAction<'a> {
    /// Send this peer the rest of the batch.
    Resend(PeerId),
    /// What the frame would call for at any other time.
    Frame(InboundAction<'a>),
}

/// Where the gathering of acks stands.
#[derive(Clone, Copy, Debug, PartialEq, Eq, Structural)]
pub enum GatherStep {
    /// It is over.
    Done,
    /// Wait for the next frame, for at most so many milliseconds.
    Wait(u64),
}

/// How a message came out while acks are gathered: an append response goes to
/// the batch, and everything else is dealt with as at any other time.
pub open spec fn gather_outcome(
    m: NodeModel,
    stored: StorageModel,
    g: GatherModel,
    inbound: InboundRaftMessage<'_>,
    now_ms: u64,
    action: GatherAction<'_>,
    r: Result<(), RaftError>,
    after: NodeModel,
    stored_after: StorageModel,
    g_after: GatherModel,
) -> bool {
    match inbound.message {
        RaftMessage::AppendEntriesResp(resp) => {
            let more = match r {
                Err(e) => Err(e),
                Ok(()) => Ok(
                    match action {
                        GatherAction::Resend(peer) => Some(peer),
                        GatherAction::Frame(_) => None,
                    },
                ),
            };
            &&& r is Err ==> action is Frame
            &&& action matches GatherAction::Frame(inner) ==> inner is Done
            &&& ack_outcome(
                m,
                stored,
                g,
                inbound.from,
                resp,
                more,
                after,
                stored_after,
                g_after,
            )
        },
        _ => {
            &&& g_after == g
            &&& action matches GatherAction::Frame(inner) && inbound_outcome(
                m,
                stored,
                inbound.from,
                inbound.message,
                now_ms,
                inner,
                r,
                after,
                stored_after,
            )
        },
    }
}

/// Whether a message is at fault itself while acks are gathered, so that it is an
/// error over any storage.
pub open spec fn gather_fault(
    m: NodeModel,
    stored: StorageModel,
    inbound: InboundRaftMessage<'_>,
    now_ms: u64,
    e: RaftError,
    after: NodeModel,
) -> bool {
    match inbound.message {
        RaftMessage::AppendEntriesResp(resp) => {
            ||| e == (RaftError::TermChanged { current: Term(resp.term) })
            ||| e matches RaftError::PeerUnknown(p) && p == inbound.from
        },
        _ => inbound_fault(m, stored, inbound.from, inbound.message, now_ms, e, after),
    }
}

/// Whether to wait for another frame while acks are gathered, where `reached` says that
/// the batch has its majority.
pub open spec fn gather_decision(
    reached: bool,
    g: GatherModel,
    heard: bool,
    deadline_ms: u64,
    now_ms: u64,
) -> GatherStep {
    if reached || g.pending == Map::<PeerId, AppendAttemptState>::empty() || !heard || now_ms
        >= deadline_ms {
        GatherStep::Done
    } else {
        GatherStep::Wait((deadline_ms - now_ms) as u64)
    }
}

impl RaftNode {
    /// How long acks are gathered, in milliseconds.
    pub fn gather_wait_ms(&self) -> (r: u64)
        requires
            self@.timing.heartbeat_ms * 2 <= u64::MAX,
        ensures
            r == self@.timing.heartbeat_ms * 2,
    {
        self.config.timing.heartbeat_ms * 2
    }

    /// Whether to wait for another frame, asked before the first one and after each.
    /// The gathering is over once the batch has its majority or no request is under
    /// way any more, at the deadline, and when the last wait brought nothing.
    pub fn gather_step(
        &self,
        gather: &ProposeGather,
        heard: bool,
        deadline_ms: u64,
        now_ms: u64,
    ) -> (r: GatherStep)
        ensures
            r == gather_decision(
                self.gather_reached(gather@),
                gather@,
                heard,
                deadline_ms,
                now_ms,
            ),
    {
        if self.gather_done(gather) || !heard || now_ms >= deadline_ms {
            GatherStep::Done
        } else {
            GatherStep::Wait(deadline_ms - now_ms)
        }
    }

    /// Deals with one frame while acks are gathered. A frame that is not well
    /// formed is an error and changes nothing.
    pub fn gather_dispatch_frame<'a, S: RaftStorage>(
        &mut self,
        storage: &mut S,
        gather: &mut ProposeGather,
        frame: &'a [u8],
        now_ms: u64,
    ) -> (r: (GatherAction<'a>, Result<(), RaftError>))
        requires
            old(gather)@.accepted < usize::MAX,
        ensures
            match decode_fault(frame@) {
                Some(words) => {
                    &&& r.1 matches Err(e) && e.is_protocol(words)
                    &&& r.0 matches GatherAction::Frame(action) && action is Done
                    &&& final(self)@ == old(self)@
                    &&& final(storage).model() == old(storage).model()
                    &&& final(gather)@ == old(gather)@
                },
                None => exists|m: InboundRaftMessage<'a>| #[trigger]
                    decodes(frame@, m) && gather_outcome(
                        old(self)@,
                        old(storage).model(),
                        old(gather)@,
                        m,
                        now_ms,
                        r.0,
                        r.1,
                        final(self)@,
                        final(storage).model(),
                        final(gather)@,
                    ) && (r.1 matches Err(e) ==> S::fails_with(e) || gather_fault(
                        old(self)@,
                        old(storage).model(),
                        m,
                        now_ms,
                        e,
                        final(self)@,
                    )),
            },
    {
        let inbound: InboundRaftMessage<'a> = match decode_message(frame) {
            Err(e) => {
                return (GatherAction::Frame(InboundAction::Done), Err(e));
            },
            Ok(inbound) => inbound,
        };
        match inbound.message {
            RaftMessage::AppendEntriesResp(resp) => {
                match self.process_append_resp(storage, gather, inbound.from, &resp) {
                    Err(e) => (GatherAction::Frame(InboundAction::Done), Err(e)),
                    Ok(Some(peer)) => (GatherAction::Resend(peer), Ok(())),
                    Ok(None) => (GatherAction::Frame(InboundAction::Done), Ok(())),
                }
            },
            _ => {
                proof {
                    law_decoded_batches_hold_together(frame@, inbound);
                }
                let (action, r) = self.handle_inbound(storage, inbound, now_ms);
                (GatherAction::Frame(action), r)
            },
        }
    }
}

/// While acks are gathered only acks count: no other message changes what was gathered. The
/// rest of a batch goes to nobody but the peer that answered and is still awaited, and an
/// answer of a later term counts for nothing and leaves the node a follower of that term.
pub proof fn law_only_acks_are_gathered(
    m: NodeModel,
    stored: StorageModel,
    g: GatherModel,
    inbound: InboundRaftMessage<'_>,
    now_ms: u64,
    action: GatherAction<'_>,
    r: Result<(), RaftError>,
    after: NodeModel,
    stored_after: StorageModel,
    g_after: GatherModel,
)
    requires
        gather_outcome(
            m,
            stored,
            g,
            inbound,
            now_ms,
            action,
            r,
            after,
            stored_after,
            g_after,
        ),
    ensures
        !(inbound.message is AppendEntriesResp) ==> g_after == g,
        action matches GatherAction::Resend(peer) ==> {
            &&& inbound.message is AppendEntriesResp
            &&& peer == inbound.from
            &&& r is Ok
            &&& g_after.pending.dom().contains(peer)
        },
        g_after.last_index == g.last_index && g_after.term == g.term && g_after.needed == g.needed,
        g.accepted <= g_after.accepted <= g.accepted + 1,
        g_after.accepted > g.accepted ==> {
            &&& m.peers.contains(inbound.from)
            &&& g.pending.dom().contains(inbound.from)
            &&& !g_after.pending.dom().contains(inbound.from)
        },
        forall|p: PeerId| #[trigger]
            g_after.pending.dom().contains(p) ==> g.pending.dom().contains(p) && g_after.pending[p]
                == g.pending[p],
        forall|p: PeerId|
            p != inbound.from && #[trigger] g.pending.dom().contains(p)
                ==> g_after.pending.dom().contains(p),
        inbound.message matches RaftMessage::AppendEntriesResp(resp) ==> (resp.term
            > m.hard.current_term.0 ==> {
            &&& g_after == g
            &&& r is Ok ==> after.soft.role is Follower && after.hard.current_term.0 == resp.term
        }),
{
}

/// Acks are waited for exactly while the majority is missing, somebody is still awaited, the
/// last wait brought something and the deadline is ahead; and then until the deadline.
pub proof fn law_acks_are_waited_for_until_the_deadline(
    reached: bool,
    g: GatherModel,
    heard: bool,
    deadline_ms: u64,
    now_ms: u64,
)
    ensures
        ({
            let step = gather_decision(reached, g, heard, deadline_ms, now_ms);
            let awaited = exists|p: PeerId| #[trigger] g.pending.dom().contains(p);
            &&& step is Wait <==> !reached && awaited && heard && now_ms < deadline_ms
            &&& step matches GatherStep::Wait(ms) ==> now_ms + ms == deadline_ms
        }),
{
    if !(exists|p: PeerId| #[trigger] g.pending.dom().contains(p)) {
        assert(g.pending =~= Map::<PeerId, AppendAttemptState>::empty());
    }
}

} // verus!
