//! Messages with their sender, field by field.

use vstd::prelude::*;

use super::codec::wire::{
    AppendEntriesResp, InstallSnapshot, InstallSnapshotResp, RequestVote, RequestVoteResp,
};
use super::codec::encode::kind_of;
use super::codec::decode::{decode_fault, decode_message, decodes};
use super::codec::le::{field, put_slice};
use super::codec::view::AppendEntriesView;
use super::message::{InboundRaftMessage, RaftMessage};
use crate::dispatch::response::{response_fault, DispatchResponseRef};
use crate::dispatch::view::{dispatch_fault, DispatchView};
use crate::error::RaftError;
use crate::state::SnapshotMeta;
use crate::text::{decimal, text_number};
use crate::types::{LogIndex, PeerId, Term};

verus! {

/// A vote request and who sent it.
#[derive(Clone, Copy, Debug)]
pub struct RequestVoteView {
    pub from: PeerId,
    pub wire: RequestVote,
}

impl RequestVoteView {
    pub fn from(&self) -> (r: PeerId)
        ensures
            r == self.from,
    {
        self.from
    }

    pub fn term(&self) -> (r: Term)
        ensures
            r == Term(self.wire.term),
    {
        Term(self.wire.term)
    }

    pub fn candidate_id(&self) -> (r: PeerId)
        ensures
            r == PeerId(self.wire.candidate_id),
    {
        PeerId(self.wire.candidate_id)
    }

    pub fn last_log_index(&self) -> (r: LogIndex)
        ensures
            r == LogIndex(self.wire.last_log_index),
    {
        LogIndex(self.wire.last_log_index)
    }

    pub fn last_log_term(&self) -> (r: Term)
        ensures
            r == Term(self.wire.last_log_term),
    {
        Term(self.wire.last_log_term)
    }

    /// The message on its own.
    pub fn to_owned(&self) -> (r: RequestVote)
        ensures
            r == self.wire,
    {
        self.wire
    }
}

/// A vote response and who sent it.
#[derive(Clone, Copy, Debug)]
pub struct RequestVoteRespView {
    pub from: PeerId,
    pub wire: RequestVoteResp,
}

impl RequestVoteRespView {
    pub fn from(&self) -> (r: PeerId)
        ensures
            r == self.from,
    {
        self.from
    }

    pub fn term(&self) -> (r: Term)
        ensures
            r == Term(self.wire.term),
    {
        Term(self.wire.term)
    }

    pub fn vote_granted(&self) -> (r: bool)
        ensures
            r == (self.wire.vote_granted != 0),
    {
        self.wire.vote_granted != 0
    }

    /// The message on its own.
    pub fn to_owned(&self) -> (r: RequestVoteResp)
        ensures
            r == self.wire,
    {
        self.wire
    }
}

/// An append response and who sent it.
#[derive(Clone, Copy, Debug)]
pub struct AppendEntriesRespView {
    pub from: PeerId,
    pub wire: AppendEntriesResp,
}

impl AppendEntriesRespView {
    pub fn from(&self) -> (r: PeerId)
        ensures
            r == self.from,
    {
        self.from
    }

    pub fn term(&self) -> (r: Term)
        ensures
            r == Term(self.wire.term),
    {
        Term(self.wire.term)
    }

    pub fn match_index(&self) -> (r: LogIndex)
        ensures
            r == LogIndex(self.wire.match_index),
    {
        LogIndex(self.wire.match_index)
    }

    pub fn success(&self) -> (r: bool)
        ensures
            r == (self.wire.success != 0),
    {
        self.wire.success != 0
    }

    /// The message on its own.
    pub fn to_owned(&self) -> (r: AppendEntriesResp)
        ensures
            r == self.wire,
    {
        self.wire
    }
}

/// A snapshot response and who sent it.
#[derive(Clone, Copy, Debug)]
pub struct InstallSnapshotRespView {
    pub from: PeerId,
    pub wire: InstallSnapshotResp,
}

impl InstallSnapshotRespView {
    pub fn from(&self) -> (r: PeerId)
        ensures
            r == self.from,
    {
        self.from
    }

    pub fn term(&self) -> (r: Term)
        ensures
            r == Term(self.wire.term),
    {
        Term(self.wire.term)
    }

    pub fn next_offset(&self) -> (r: u64)
        ensures
            r == self.wire.next_offset,
    {
        self.wire.next_offset
    }

    pub fn accepted(&self) -> (r: bool)
        ensures
            r == (self.wire.accepted != 0),
    {
        self.wire.accepted != 0
    }

    /// The message on its own.
    pub fn to_owned(&self) -> (r: InstallSnapshotResp)
        ensures
            r == self.wire,
    {
        self.wire
    }
}

/// A snapshot chunk and who sent it.
#[derive(Clone, Copy, Debug)]
pub struct InstallSnapshotView<'a> {
    pub from: PeerId,
    pub wire: InstallSnapshot,
    pub chunk: &'a [u8],
}

impl<'a> InstallSnapshotView<'a> {
    pub fn from(&self) -> (r: PeerId)
        ensures
            r == self.from,
    {
        self.from
    }

    pub fn term(&self) -> (r: Term)
        ensures
            r == Term(self.wire.term),
    {
        Term(self.wire.term)
    }

    pub fn leader_id(&self) -> (r: PeerId)
        ensures
            r == PeerId(self.wire.leader_id),
    {
        PeerId(self.wire.leader_id)
    }

    pub fn offset(&self) -> (r: u64)
        ensures
            r == self.wire.offset,
    {
        self.wire.offset
    }

    pub fn chunk_len(&self) -> (r: usize)
        ensures
            r == self.wire.chunk_len,
    {
        self.wire.chunk_len as usize
    }

    pub fn done(&self) -> (r: bool)
        ensures
            r == (self.wire.done != 0),
    {
        self.wire.done != 0
    }

    /// What the snapshot covers.
    pub fn meta(&self) -> (r: SnapshotMeta)
        ensures
            r == (SnapshotMeta {
                last_included_index: LogIndex(self.wire.last_included_index),
                last_included_term: Term(self.wire.last_included_term),
            }),
    {
        SnapshotMeta {
            last_included_index: LogIndex(self.wire.last_included_index),
            last_included_term: Term(self.wire.last_included_term),
        }
    }

    pub fn chunk_bytes(&self) -> (r: &'a [u8])
        ensures
            r@ == self.chunk@,
    {
        self.chunk
    }
}

/// A command and who sent it.
#[derive(Clone, Copy, Debug)]
pub struct RaftCustomMessageView<'a> {
    pub from: PeerId,
    pub dispatch: DispatchView<'a>,
}

impl<'a> RaftCustomMessageView<'a> {
    pub fn from(&self) -> (r: PeerId)
        ensures
            r == self.from,
    {
        self.from
    }

    pub fn command(&self) -> (r: u8)
        ensures
            r == self.dispatch.content()[5],
    {
        self.dispatch.command()
    }

    pub fn tx_id(&self) -> (r: u64)
        ensures
            r == field(self.dispatch.content(), 12, 8),
    {
        self.dispatch.tx_id()
    }

    pub fn body(&self) -> (r: &'a [u8])
        ensures
            r@ == self.dispatch.content().skip(28),
    {
        self.dispatch.body()
    }

    pub fn dispatch(&self) -> (r: &DispatchView<'a>)
        ensures
            *r == self.dispatch,
    {
        &self.dispatch
    }

    /// The bytes of the command on their own.
    pub fn to_owned(&self) -> (r: Vec<u8>)
        ensures
            r@ == self.dispatch.content(),
    {
        let mut out: Vec<u8> = Vec::new();
        put_slice(&mut out, self.dispatch.frame_bytes());
        assert(out@ =~= self.dispatch.content());
        out
    }
}

/// An answer to a command and who sent it.
#[derive(Clone, Copy, Debug)]
pub struct RaftCustomResponseView<'a> {
    pub from: PeerId,
    pub response: DispatchResponseRef<'a>,
}

impl<'a> RaftCustomResponseView<'a> {
    pub fn from(&self) -> (r: PeerId)
        ensures
            r == self.from,
    {
        self.from
    }

    pub fn tx_id(&self) -> (r: u64)
        ensures
            r == field(self.response.content(), 8, 8),
    {
        self.response.tx_id()
    }

    pub fn command(&self) -> (r: u8)
        ensures
            r == self.response.content()[5],
    {
        self.response.command()
    }

    pub fn response(&self) -> (r: &DispatchResponseRef<'a>)
        ensures
            *r == self.response,
    {
        &self.response
    }
}

/// A message of one of the kinds that have a view.
#[derive(Clone, Copy, Debug)]
pub enum RaftMessageView<'a> {
    RequestVote(RequestVoteView),
    RequestVoteResp(RequestVoteRespView),
    AppendEntries(AppendEntriesView<'a>),
    AppendEntriesResp(AppendEntriesRespView),
    InstallSnapshot(InstallSnapshotView<'a>),
    InstallSnapshotResp(InstallSnapshotRespView),
    Custom(RaftCustomMessageView<'a>),
    CustomResponse(RaftCustomResponseView<'a>),
}

#[derive(Clone, Copy, Debug)]
pub struct InboundRaftMessageView<'a> {
    pub from: PeerId,
    pub message: RaftMessageView<'a>,
}

/// How viewing a decoded message came out. A command or an answer is checked
/// further; a kind without a view is an error.
pub open spec fn viewed<'a>(
    m: InboundRaftMessage<'a>,
    r: Result<InboundRaftMessageView<'a>, RaftError>,
) -> bool {
    match m.message {
        RaftMessage::RequestVote(wire) => r == Ok::<InboundRaftMessageView<'a>, RaftError>(
            InboundRaftMessageView {
                from: m.from,
                message: RaftMessageView::RequestVote(RequestVoteView { from: m.from, wire }),
            },
        ),
        RaftMessage::RequestVoteResp(wire) => r == Ok::<InboundRaftMessageView<'a>, RaftError>(
            InboundRaftMessageView {
                from: m.from,
                message: RaftMessageView::RequestVoteResp(
                    RequestVoteRespView { from: m.from, wire },
                ),
            },
        ),
        RaftMessage::AppendEntries(wire, payload) => r matches Ok(v) && v.from == m.from && (
        v.message matches RaftMessageView::AppendEntries(view) && view.fixed() == wire
            && view.entry_bytes() == payload@),
        RaftMessage::AppendEntriesResp(wire) => r == Ok::<InboundRaftMessageView<'a>, RaftError>(
            InboundRaftMessageView {
                from: m.from,
                message: RaftMessageView::AppendEntriesResp(
                    AppendEntriesRespView { from: m.from, wire },
                ),
            },
        ),
        RaftMessage::InstallSnapshot(wire, chunk) => r == Ok::<
            InboundRaftMessageView<'a>,
            RaftError,
        >(
            InboundRaftMessageView {
                from: m.from,
                message: RaftMessageView::InstallSnapshot(
                    InstallSnapshotView { from: m.from, wire, chunk },
                ),
            },
        ),
        RaftMessage::InstallSnapshotResp(wire) => r == Ok::<
            InboundRaftMessageView<'a>,
            RaftError,
        >(
            InboundRaftMessageView {
                from: m.from,
                message: RaftMessageView::InstallSnapshotResp(
                    InstallSnapshotRespView { from: m.from, wire },
                ),
            },
        ),
        RaftMessage::Custom(payload) => match dispatch_fault(payload@) {
            Some(words) => r matches Err(e) && e.is_dispatch(words),
            None => r matches Ok(v) && v.from == m.from && (v.message matches
                RaftMessageView::Custom(view) && view.from == m.from && view.dispatch.content()
                == payload@),
        },
        RaftMessage::CustomResponse(payload) => match response_fault(payload@) {
            Some(words) => r matches Err(e) && e.is_dispatch(words),
            None => r matches Ok(v) && v.from == m.from && (v.message matches
                RaftMessageView::CustomResponse(view) && view.from == m.from
                && view.response.content() == payload@),
        },
        _ => r matches Err(e) && e.is_protocol(
            "unknown raft message kind "@ + decimal(m.message.kind() as nat),
        ),
    }
}

impl<'a> RaftMessageView<'a> {
    /// Decodes a frame into a view.
    pub fn parse(frame: &'a [u8]) -> (r: Result<InboundRaftMessageView<'a>, RaftError>)
        ensures
            match decode_fault(frame@) {
                Some(words) => r matches Err(e) && e.is_protocol(words),
                None => exists|m: InboundRaftMessage<'a>| #[trigger]
                    decodes(frame@, m) && viewed(m, r),
            },
    {
        let inbound: InboundRaftMessage<'a> = match decode_message(frame) {
            Err(e) => {
                return Err(e);
            },
            Ok(inbound) => inbound,
        };
        let from = inbound.from;
        let message: RaftMessageView<'a> = match inbound.message {
            RaftMessage::RequestVote(wire) => {
                RaftMessageView::RequestVote(RequestVoteView { from, wire })
            },
            RaftMessage::RequestVoteResp(wire) => {
                RaftMessageView::RequestVoteResp(RequestVoteRespView { from, wire })
            },
            RaftMessage::AppendEntries(wire, payload) => {
                RaftMessageView::AppendEntries(AppendEntriesView::new(wire, payload))
            },
            RaftMessage::AppendEntriesResp(wire) => {
                RaftMessageView::AppendEntriesResp(AppendEntriesRespView { from, wire })
            },
            RaftMessage::InstallSnapshot(wire, chunk) => {
                RaftMessageView::InstallSnapshot(InstallSnapshotView { from, wire, chunk })
            },
            RaftMessage::InstallSnapshotResp(wire) => {
                RaftMessageView::InstallSnapshotResp(InstallSnapshotRespView { from, wire })
            },
            RaftMessage::Custom(payload) => match DispatchView::parse(payload) {
                Err(e) => {
                    return Err(e);
                },
                Ok(dispatch) => RaftMessageView::Custom(RaftCustomMessageView { from, dispatch }),
            },
            RaftMessage::CustomResponse(payload) => match DispatchResponseRef::parse(payload) {
                Err(e) => {
                    return Err(e);
                },
                Ok(response) => {
                    RaftMessageView::CustomResponse(RaftCustomResponseView { from, response })
                },
            },
            _ => {
                return Err(
                    RaftError::Protocol(
                        text_number(
                            "unknown raft message kind ",
                            kind_of(&inbound.message) as u64,
                        ),
                    ),
                );
            },
        };
        Ok(InboundRaftMessageView { from, message })
    }
}

/// A view shows what was sent, in the name of its sender: votes and their answers, appends
/// and their answers, snapshots and their answers each as they came. What has no view is
/// refused, as is a command or an answer that is not well formed.
pub proof fn law_views_show_what_was_sent<'a>(
    m: InboundRaftMessage<'a>,
    r: Result<InboundRaftMessageView<'a>, RaftError>,
)
    requires
        viewed(m, r),
    ensures
        r matches Ok(v) ==> v.from == m.from && match v.message {
            RaftMessageView::RequestVote(w) => m.message == RaftMessage::RequestVote(w.wire)
                && w.from == m.from,
            RaftMessageView::RequestVoteResp(w) => m.message == RaftMessage::RequestVoteResp(
                w.wire,
            ) && w.from == m.from,
            RaftMessageView::AppendEntries(w) => m.message matches RaftMessage::AppendEntries(
                wire,
                payload,
            ) && w.fixed() == wire && w.entry_bytes() == payload@,
            RaftMessageView::AppendEntriesResp(w) => m.message == RaftMessage::AppendEntriesResp(
                w.wire,
            ) && w.from == m.from,
            RaftMessageView::InstallSnapshot(w) => m.message == RaftMessage::InstallSnapshot(
                w.wire,
                w.chunk,
            ) && w.from == m.from,
            RaftMessageView::InstallSnapshotResp(w) => m.message
                == RaftMessage::InstallSnapshotResp(w.wire) && w.from == m.from,
            RaftMessageView::Custom(w) => m.message matches RaftMessage::Custom(p) && w.from
                == m.from && w.dispatch.content() == p@,
            RaftMessageView::CustomResponse(w) => m.message matches RaftMessage::CustomResponse(p)
                && w.from == m.from && w.response.content() == p@,
        },
        r is Err ==> !(m.message is RequestVote) && !(m.message is RequestVoteResp) && !(
        m.message is AppendEntries) && !(m.message is AppendEntriesResp) && !(
        m.message is InstallSnapshot) && !(m.message is InstallSnapshotResp),
        m.message is PreVote || m.message is PreVoteResp || m.message is TimeoutNow ==> r is Err,
{
}

} // verus!
