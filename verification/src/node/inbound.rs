//! One inbound frame: who deals with it, and what is answered.

use vstd::prelude::*;

use super::election::{is_vote_response, vote_outcome};
use super::raft_node::{saved, step_down_outcome, NodeModel, RaftNode};
use super::replication::handler::{append_fault, append_outcome, memory_outcome, seeded_entries};
use super::snapshot::{chunk_fault, install_outcome};
use crate::dispatch::spec::DispatchRoute;
use crate::entry::EntryRecord;
use crate::error::RaftError;
use crate::protocol::codec::decode::{decode_fault, decode_message, decodes};
use crate::protocol::codec::wire::{
    AppendEntries, AppendEntriesResp, InstallSnapshotResp, RequestVoteResp, APPEND_ENTRIES_SIZE,
    ENTRY_HEADER_SIZE, KIND_APPEND_ENTRIES_SEEDED, RAFT_FRAME_HEADER_SIZE,
};
use crate::protocol::message::{entries_in, seeded_total, InboundRaftMessage, RaftMessage};
use crate::text::text;
use crate::state::Role;
use crate::traits::{RaftStorage, StorageModel};
use crate::types::{PeerId, Term};

verus! {

/// What a frame calls for, once the node has dealt with it.
#[derive(Clone, Copy, Debug)]
pub enum InboundAction<'a> {
    /// Nothing.
    Done,
    /// Answer the sender.
    Append(AppendEntriesResp),
    Vote(RequestVoteResp),
    PreVote(RequestVoteResp),
    Snapshot(InstallSnapshotResp),
    /// Hand a command to the application, as it sees this node.
    Command(&'a [u8], DispatchRoute),
    /// Hand an answer to the command that awaits it.
    Answer(&'a [u8]),
}

/// Whether a batch in the seeded form holds together. Every decoded one does.
pub open spec fn holds_together(msg: RaftMessage<'_>) -> bool {
    msg matches RaftMessage::AppendEntriesSeeded { ae, headers, payloads } ==> headers@.len()
        == ae.entry_count * ENTRY_HEADER_SIZE && seeded_total(headers@, ae.entry_count as nat)
        == payloads@.len()
}

/// How a message that only carries a term came out.
pub open spec fn term_outcome(
    before: NodeModel,
    stored: StorageModel,
    term: u64,
    r: Result<(), RaftError>,
    after: NodeModel,
    stored_after: StorageModel,
) -> bool {
    if term > before.hard.current_term.0 {
        step_down_outcome(before, stored, Term(term), r, after, stored_after)
    } else {
        r is Ok && after == before && stored_after == stored
    }
}

/// How an inbound append request came out: it is answered, or it is an error.
pub open spec fn append_answered(
    before: NodeModel,
    stored: StorageModel,
    ae: AppendEntries,
    entries: Seq<EntryRecord>,
    complaint: Seq<char>,
    now_ms: u64,
    action: InboundAction<'_>,
    r: Result<(), RaftError>,
    after: NodeModel,
    stored_after: StorageModel,
) -> bool {
    let answer = match r {
        Ok(()) => Ok(action->Append_0),
        Err(e) => Err(e),
    };
    &&& r is Ok ==> action is Append
    &&& r is Err ==> action is Done
    &&& append_outcome(before, stored, ae, entries, now_ms, answer, after, stored_after)
    &&& memory_outcome(before, ae, entries, complaint, now_ms, answer, after)
}

/// How an inbound message came out. The sender counts as heard from first.
pub open spec fn inbound_outcome(
    node: NodeModel,
    stored: StorageModel,
    from: PeerId,
    msg: RaftMessage<'_>,
    now_ms: u64,
    action: InboundAction<'_>,
    r: Result<(), RaftError>,
    after: NodeModel,
    stored_after: StorageModel,
) -> bool {
    let before = node.heard(from, msg, now_ms);
    match msg {
        RaftMessage::AppendEntries(ae, payload) => append_answered(
            before,
            stored,
            ae,
            entries_in(payload@, ae.entry_count as nat),
            "AppendEntries entries not contiguous with prev_log_index"@,
            now_ms,
            action,
            r,
            after,
            stored_after,
        ),
        RaftMessage::AppendEntriesSeeded { ae, headers, payloads } => append_answered(
            before,
            stored,
            ae,
            seeded_entries(headers@, payloads@, ae.entry_count as nat),
            "seeded AppendEntries entries not contiguous with prev_log_index"@,
            now_ms,
            action,
            r,
            after,
            stored_after,
        ),
        RaftMessage::AppendEntriesResp(resp) => {
            &&& action is Done
            &&& if resp.term > before.hard.current_term.0 {
                step_down_outcome(before, stored, Term(resp.term), r, after, stored_after)
            } else {
                r is Ok && after == before.acked_by(from, resp) && stored_after == stored
            }
        },
        RaftMessage::RequestVote(req) => match r {
            Ok(()) => action matches InboundAction::Vote(resp) && vote_outcome(
                before,
                stored,
                req,
                Ok(resp),
                after,
                stored_after,
            ),
            Err(e) => action is Done && vote_outcome(
                before,
                stored,
                req,
                Err(e),
                after,
                stored_after,
            ),
        },
        RaftMessage::RequestVoteResp(resp) => action is Done && term_outcome(
            before,
            stored,
            resp.term,
            r,
            after,
            stored_after,
        ),
        RaftMessage::PreVote(req) => {
            &&& r is Ok ==> (action matches InboundAction::PreVote(resp) && is_vote_response(
                resp,
                before.hard.current_term,
                before.would_grant(stored.tip, req, now_ms),
            ))
            &&& r is Err ==> action is Done
            &&& after == before
            &&& stored_after == stored
        },
        RaftMessage::PreVoteResp(resp) => action is Done && term_outcome(
            before,
            stored,
            resp.term,
            r,
            after,
            stored_after,
        ),
        RaftMessage::InstallSnapshot(chunk, payload) => install_outcome(
            before,
            stored,
            from,
            chunk,
            payload@,
            now_ms,
            match action {
                InboundAction::Snapshot(resp) => Some(resp),
                _ => None,
            },
            r,
            after,
            stored_after,
        ) && (action is Done || action is Snapshot),
        RaftMessage::InstallSnapshotResp(resp) => action is Done && term_outcome(
            before,
            stored,
            resp.term,
            r,
            after,
            stored_after,
        ),
        RaftMessage::TimeoutNow(sanction) => {
            &&& action is Done
            &&& match r {
                Ok(()) => {
                    &&& after == before.sanctioned(from, sanction.term)
                    &&& stored_after == if sanction.term > before.hard.current_term.0 {
                        saved(stored, after.hard)
                    } else {
                        stored
                    }
                },
                Err(e) => sanction.term > before.hard.current_term.0 && step_down_outcome(
                    before,
                    stored,
                    Term(sanction.term),
                    Err(e),
                    after,
                    stored_after,
                ),
            }
        },
        RaftMessage::Custom(payload) => {
            &&& r is Ok
            &&& action matches InboundAction::Command(p, route) && p@ == payload@ && route == (
            DispatchRoute { role: before.dispatch_role(), is_origin: from == before.node_id })
            &&& after == before
            &&& stored_after == stored
        },
        RaftMessage::CustomResponse(payload) => {
            &&& r is Ok
            &&& action matches InboundAction::Answer(p) && p@ == payload@
            &&& after == before
            &&& stored_after == stored
        },
        RaftMessage::AppendEntriesVectored(_, _) => {
            &&& r matches Err(e) && e.is_protocol("unexpected vectored inbound"@)
            &&& action is Done
            &&& after == before
            &&& stored_after == stored
        },
        RaftMessage::AppendEntriesSeededVectored { .. } => {
            &&& r matches Err(e) && e.is_protocol("unexpected vectored inbound"@)
            &&& action is Done
            &&& after == before
            &&& stored_after == stored
        },
    }
}

/// Whether a message is at fault itself, so that it is an error over any storage.
pub open spec fn inbound_fault(
    node: NodeModel,
    stored: StorageModel,
    from: PeerId,
    msg: RaftMessage<'_>,
    now_ms: u64,
    e: RaftError,
    after: NodeModel,
) -> bool {
    let before = node.heard(from, msg, now_ms);
    match msg {
        RaftMessage::AppendEntries(ae, payload) => append_fault(
            before,
            stored,
            ae,
            entries_in(payload@, ae.entry_count as nat),
            "AppendEntries entries not contiguous with prev_log_index"@,
            now_ms,
            e,
            after,
        ),
        RaftMessage::AppendEntriesSeeded { ae, headers, payloads } => append_fault(
            before,
            stored,
            ae,
            seeded_entries(headers@, payloads@, ae.entry_count as nat),
            "seeded AppendEntries entries not contiguous with prev_log_index"@,
            now_ms,
            e,
            after,
        ),
        RaftMessage::InstallSnapshot(chunk, payload) => chunk_fault(
            before,
            from,
            chunk,
            payload@,
            now_ms,
        ),
        RaftMessage::AppendEntriesVectored(_, _) => true,
        RaftMessage::AppendEntriesSeededVectored { .. } => true,
        _ => false,
    }
}

/// The batch of a decoded frame in the seeded form holds together.
pub proof fn law_decoded_batches_hold_together(frame: Seq<u8>, m: InboundRaftMessage<'_>)
    requires
        decode_fault(frame) is None,
        decodes(frame, m),
    ensures
        holds_together(m.message),
{
    match m.message {
        RaftMessage::AppendEntriesSeeded { ae, headers, payloads } => {
            let body = frame.skip(RAFT_FRAME_HEADER_SIZE as int);
            let rest = body.skip(APPEND_ENTRIES_SIZE as int);
            let n = ae.entry_count * ENTRY_HEADER_SIZE;
            assert(frame[5] == KIND_APPEND_ENTRIES_SEEDED);
            assert(rest.take(n) =~= headers@);
            assert(payloads@.len() == rest.len() - n);
        },
        _ => {},
    }
}

impl RaftNode {
    /// Deals with one inbound message: what it calls for, and how it went.
    pub fn handle_inbound<'a, S: RaftStorage>(
        &mut self,
        storage: &mut S,
        inbound: InboundRaftMessage<'a>,
        now_ms: u64,
    ) -> (r: (InboundAction<'a>, Result<(), RaftError>))
        requires
            holds_together(inbound.message),
        ensures
            inbound_outcome(
                old(self)@,
                old(storage).model(),
                inbound.from,
                inbound.message,
                now_ms,
                r.0,
                r.1,
                final(self)@,
                final(storage).model(),
            ),
            r.1 matches Err(e) ==> S::fails_with(e) || inbound_fault(
                old(self)@,
                old(storage).model(),
                inbound.from,
                inbound.message,
                now_ms,
                e,
                final(self)@,
            ),
    {
        let from = inbound.from;
        self.note_contact(from, &inbound.message, now_ms);
        match inbound.message {
            RaftMessage::AppendEntries(msg, payload) => {
                match self.handle_append_entries(storage, &msg, payload, now_ms) {
                    Ok(resp) => (InboundAction::Append(resp), Ok(())),
                    Err(e) => (InboundAction::Done, Err(e)),
                }
            },
            RaftMessage::AppendEntriesSeeded { ae, headers, payloads } => {
                match self.handle_append_entries_seeded(storage, &ae, headers, payloads, now_ms) {
                    Ok(resp) => (InboundAction::Append(resp), Ok(())),
                    Err(e) => (InboundAction::Done, Err(e)),
                }
            },
            RaftMessage::AppendEntriesResp(resp) => {
                (InboundAction::Done, self.handle_append_entries_response(storage, from, &resp))
            },
            RaftMessage::RequestVote(msg) => {
                match self.handle_request_vote(storage, &msg) {
                    Ok(resp) => (InboundAction::Vote(resp), Ok(())),
                    Err(e) => (InboundAction::Done, Err(e)),
                }
            },
            RaftMessage::RequestVoteResp(resp) => {
                (InboundAction::Done, self.handle_request_vote_response(storage, &resp))
            },
            RaftMessage::PreVote(msg) => {
                match self.handle_pre_vote(storage, &msg, now_ms) {
                    Ok(resp) => (InboundAction::PreVote(resp), Ok(())),
                    Err(e) => (InboundAction::Done, Err(e)),
                }
            },
            RaftMessage::PreVoteResp(resp) => {
                (InboundAction::Done, self.handle_pre_vote_response(storage, &resp))
            },
            RaftMessage::InstallSnapshot(msg, payload) => {
                let (reply, r) = self.handle_install_snapshot(
                    storage,
                    from,
                    &msg,
                    payload,
                    now_ms,
                );
                match reply {
                    Some(resp) => (InboundAction::Snapshot(resp), r),
                    None => (InboundAction::Done, r),
                }
            },
            RaftMessage::InstallSnapshotResp(resp) => {
                (InboundAction::Done, self.handle_install_snapshot_response(storage, &resp))
            },
            RaftMessage::TimeoutNow(msg) => {
                (InboundAction::Done, self.handle_timeout_now(storage, from, &msg))
            },
            RaftMessage::Custom(payload) => {
                (InboundAction::Command(payload, self.route_of_inbound(from)), Ok(()))
            },
            RaftMessage::CustomResponse(payload) => (InboundAction::Answer(payload), Ok(())),
            RaftMessage::AppendEntriesVectored(_, _) => {
                (
                    InboundAction::Done,
                    Err(RaftError::Protocol(text("unexpected vectored inbound"))),
                )
            },
            RaftMessage::AppendEntriesSeededVectored { .. } => {
                (
                    InboundAction::Done,
                    Err(RaftError::Protocol(text("unexpected vectored inbound"))),
                )
            },
        }
    }

    /// Decodes one frame and deals with it. A frame that is not well formed is
    /// an error and changes nothing.
    pub fn handle_frame<'a, S: RaftStorage>(
        &mut self,
        storage: &mut S,
        frame: &'a [u8],
        now_ms: u64,
    ) -> (r: (InboundAction<'a>, Result<(), RaftError>))
        ensures
            match decode_fault(frame@) {
                Some(words) => {
                    &&& r.1 matches Err(e) && e.is_protocol(words)
                    &&& r.0 is Done
                    &&& final(self)@ == old(self)@
                    &&& final(storage).model() == old(storage).model()
                },
                None => exists|m: InboundRaftMessage<'a>| #[trigger]
                    decodes(frame@, m) && inbound_outcome(
                        old(self)@,
                        old(storage).model(),
                        m.from,
                        m.message,
                        now_ms,
                        r.0,
                        r.1,
                        final(self)@,
                        final(storage).model(),
                    ) && (r.1 matches Err(e) ==> S::fails_with(e) || inbound_fault(
                        old(self)@,
                        old(storage).model(),
                        m.from,
                        m.message,
                        now_ms,
                        e,
                        final(self)@,
                    )),
            },
    {
        match decode_message(frame) {
            Err(e) => (InboundAction::Done, Err(e)),
            Ok(inbound) => {
                proof {
                    law_decoded_batches_hold_together(frame@, inbound);
                }
                self.handle_inbound(storage, inbound, now_ms)
            },
        }
    }
}

/// What a loop makes of a handler's error: damage to this node's own durable
/// state ends the loop, anything else costs the one frame.
pub fn tolerate(r: Result<(), RaftError>) -> (out: Result<(), RaftError>)
    ensures
        match r {
            Ok(()) => out is Ok,
            Err(e) => if e.class_spec() is Fatal {
                out == r
            } else {
                out is Ok
            },
        },
{
    match r {
        Ok(()) => Ok(()),
        Err(e) => if e.is_fatal() {
            Err(e)
        } else {
            Ok(())
        },
    }
}

/// Every message gets its own kind of answer: requests are answered with what they ask
/// for, a command goes to the application with the sender's and this node's place in it,
/// and an answer to the command that awaits it. Whatever carries a newer term is given way
/// to; a pre-vote and a command change nothing of the consensus state.
pub proof fn law_messages_get_their_own_answers(
    node: NodeModel,
    stored: StorageModel,
    from: PeerId,
    msg: RaftMessage<'_>,
    now_ms: u64,
    action: InboundAction<'_>,
    after: NodeModel,
    stored_after: StorageModel,
)
    requires
        inbound_outcome(node, stored, from, msg, now_ms, action, Ok(()), after, stored_after),
    ensures
        match msg {
            RaftMessage::AppendEntries(ae, _) => action is Append && (ae.term
                >= node.hard.current_term.0 ==> after.hard.current_term.0 == ae.term),
            RaftMessage::AppendEntriesSeeded { ae, headers, payloads } => action is Append && (
            ae.term >= node.hard.current_term.0 ==> after.hard.current_term.0 == ae.term),
            RaftMessage::RequestVote(req) => action is Vote && (req.term
                >= node.hard.current_term.0 ==> after.hard.current_term.0 == req.term),
            RaftMessage::PreVote(_) => action is PreVote && after.hard == node.hard && after.soft
                == node.soft && stored_after == stored,
            RaftMessage::RequestVoteResp(resp) => action is Done && gave_way(
                node,
                resp.term,
                after,
            ),
            RaftMessage::PreVoteResp(resp) => action is Done && gave_way(node, resp.term, after),
            RaftMessage::AppendEntriesResp(resp) => action is Done && gave_way(
                node,
                resp.term,
                after,
            ),
            RaftMessage::InstallSnapshotResp(resp) => action is Done && gave_way(
                node,
                resp.term,
                after,
            ),
            RaftMessage::InstallSnapshot(chunk, _) => (action is Snapshot || !node.peers.contains(
                from,
            )) && (node.peers.contains(from) && chunk.term >= node.hard.current_term.0
                ==> after.hard.current_term.0 == chunk.term),
            RaftMessage::TimeoutNow(sanction) => action is Done && (sanction.term
                > node.hard.current_term.0 ==> after.hard.current_term.0 == sanction.term) && (
            sanction.term <= node.hard.current_term.0 ==> after.hard == node.hard),
            RaftMessage::Custom(payload) => {
                &&& action matches InboundAction::Command(p, route) && p@ == payload@ && (
                route.role is Leader <==> node.soft.role == Role::Leader) && (route.is_origin
                    <==> from == node.node_id)
                &&& after.hard == node.hard && after.soft == node.soft && stored_after == stored
            },
            RaftMessage::CustomResponse(payload) => {
                &&& action matches InboundAction::Answer(p) && p@ == payload@
                &&& after.hard == node.hard && after.soft == node.soft && stored_after == stored
            },
            _ => false,
        },
{
}

/// Whether a node gave way to an answer of a newer term, and to no other.
pub open spec fn gave_way(node: NodeModel, term: u64, after: NodeModel) -> bool {
    &&& term > node.hard.current_term.0 ==> after.hard.current_term.0 == term && after.soft.role
        == Role::Follower && after.hard.voted_for is None
    &&& term <= node.hard.current_term.0 ==> after.hard == node.hard && after.soft == node.soft
}

/// A leader counts a voter as heard from when a frame of its own term arrives, and
/// nobody else: not a learner, not a frame of another term, and not a custom command,
/// which carries no term.
pub proof fn law_voters_count_as_heard(
    m: NodeModel,
    from: PeerId,
    msg: RaftMessage<'_>,
    now_ms: u64,
    p: PeerId,
)
    ensures
        ({
            let n = m.heard(from, msg, now_ms);
            let own = m.hard.current_term.0;
            let voter = m.soft.role == Role::Leader && m.peers.contains(from);
            &&& n == (NodeModel { contact: n.contact, ..m })
            &&& p != from ==> n.contact.dom().contains(p) == m.contact.dom().contains(p)
                && n.contact[p] == m.contact[p]
            &&& !voter ==> n == m
            &&& voter ==> match msg {
                RaftMessage::AppendEntriesResp(resp) => if resp.term == own {
                    n.contact == m.contact.insert(from, now_ms)
                } else {
                    n == m
                },
                RaftMessage::RequestVoteResp(resp) => if resp.term == own {
                    n.contact == m.contact.insert(from, now_ms)
                } else {
                    n == m
                },
                RaftMessage::PreVoteResp(resp) => if resp.term == own {
                    n.contact == m.contact.insert(from, now_ms)
                } else {
                    n == m
                },
                RaftMessage::InstallSnapshotResp(resp) => if resp.term == own {
                    n.contact == m.contact.insert(from, now_ms)
                } else {
                    n == m
                },
                RaftMessage::Custom(_) => n == m,
                RaftMessage::CustomResponse(_) => n == m,
                _ => true,
            }
        }),
{
}

} // verus!
