use vstd::prelude::*;
use vstd::string::*;

use crate::text::{text, text_number, text_number_text, text_text};
use crate::types::{LeaderHint, PeerId, Term};

verus! {

/// The kinds of I/O failure that the engine tells apart.
#[derive(Clone, Copy, Debug, PartialEq, Eq, Structural)]
pub enum IoFaultKind {
    StorageFull,
    QuotaExceeded,
    OutOfMemory,
    /// Any other kind.
    Other,
}

/// An I/O failure reported by a storage implementation.
#[derive(Debug)]
pub struct IoFault {
    pub kind: IoFaultKind,
    pub message: String,
}

#[derive(Debug)]
pub enum RaftError {
    NotLeader { leader_hint: Option<LeaderHint> },
    NoQuorum,
    /// A leadership transfer was aborted: the target could not catch up with
    /// the leader's log within one election timeout. The leader has resumed
    /// normal operation, so the transfer may be retried.
    TransferTimeout(PeerId),
    TermChanged { current: Term },
    /// The client mailbox is full. Nothing was enqueued; back off and retry.
    Overloaded,
    PeerUnknown(PeerId),
    InvalidConfig(String),
    InvalidPayload(String),
    Protocol(String),
    Dispatch(String),
    Storage(String),
    Transport(String),
    CorruptLog(String),
    Snapshot(String),
    Io(IoFault),
}

/// How severe a [`RaftError`] is.
#[derive(Clone, Copy, Debug, PartialEq, Eq, Structural)]
pub enum ErrorClass {
    /// A passing peer or network condition: drop the frame or retry.
    Transient,
    /// This node does not lead; redirect to the hint.
    NotLeaderRedirect,
    /// A malformed or unexpected inbound frame: drop it, keep serving.
    BadFrame,
    /// Disk, quota or memory is exhausted. Durable state is intact: degrade,
    /// do not halt.
    Resource,
    /// This node's own durable state is broken: halt.
    Fatal,
}

/// Whether a kind of I/O failure means that the write was refused for lack of
/// resources, with nothing durable damaged.
pub open spec fn exhausts_resources(kind: IoFaultKind) -> bool {
    kind is StorageFull || kind is QuotaExceeded || kind is OutOfMemory
}

fn io_kind_is_resource_exhaustion(kind: IoFaultKind) -> (r: bool)
    ensures
        r == exhausts_resources(kind),
{
    matches!(
        kind,
        IoFaultKind::StorageFull | IoFaultKind::QuotaExceeded | IoFaultKind::OutOfMemory
    )
}

impl RaftError {
    /// The class of this error.
    pub open spec fn class_spec(self) -> ErrorClass {
        match self {
            RaftError::Io(fault) => if exhausts_resources(fault.kind) {
                ErrorClass::Resource
            } else {
                ErrorClass::Fatal
            },
            RaftError::Storage(_) | RaftError::CorruptLog(_) => ErrorClass::Fatal,
            RaftError::NotLeader { .. } => ErrorClass::NotLeaderRedirect,
            RaftError::Protocol(_)
            | RaftError::Dispatch(_)
            | RaftError::Snapshot(_)
            | RaftError::InvalidPayload(_)
            | RaftError::InvalidConfig(_)
            | RaftError::PeerUnknown(_) => ErrorClass::BadFrame,
            RaftError::NoQuorum
            | RaftError::TermChanged { .. }
            | RaftError::Transport(_)
            | RaftError::Overloaded
            | RaftError::TransferTimeout(_) => ErrorClass::Transient,
        }
    }

    /// Whether this is a protocol error with the text `words`.
    pub open spec fn is_protocol(self, words: Seq<char>) -> bool {
        self matches RaftError::Protocol(m) && m@ == words
    }

    /// Whether this is a dispatch error with the text `words`.
    pub open spec fn is_dispatch(self, words: Seq<char>) -> bool {
        self matches RaftError::Dispatch(m) && m@ == words
    }

    /// Classifies this error for the run loop and for callers.
    pub fn class(&self) -> (r: ErrorClass)
        ensures
            r == self.class_spec(),
    {
        match self {
            RaftError::Io(fault) => {
                if io_kind_is_resource_exhaustion(fault.kind) {
                    ErrorClass::Resource
                } else {
                    ErrorClass::Fatal
                }
            },
            RaftError::Storage(_) | RaftError::CorruptLog(_) => ErrorClass::Fatal,
            RaftError::NotLeader { .. } => ErrorClass::NotLeaderRedirect,
            RaftError::Protocol(_)
            | RaftError::Dispatch(_)
            | RaftError::Snapshot(_)
            | RaftError::InvalidPayload(_)
            | RaftError::InvalidConfig(_)
            | RaftError::PeerUnknown(_) => ErrorClass::BadFrame,
            RaftError::NoQuorum
            | RaftError::TermChanged { .. }
            | RaftError::Transport(_)
            | RaftError::Overloaded
            | RaftError::TransferTimeout(_) => ErrorClass::Transient,
        }
    }

    /// Whether this error must end the run loop.
    pub fn is_fatal(&self) -> (r: bool)
        ensures
            r == (self.class_spec() is Fatal),
    {
        matches!(self.class(), ErrorClass::Fatal)
    }

    /// Whether this error is resource exhaustion: disk full, quota or memory.
    pub fn is_resource_exhaustion(&self) -> (r: bool)
        ensures
            r == (self.class_spec() is Resource),
    {
        matches!(self.class(), ErrorClass::Resource)
    }

    /// The text of this error.
    pub open spec fn message_spec(self) -> Seq<char> {
        match self {
            RaftError::NotLeader { leader_hint: None } => "not leader: None"@,
            RaftError::NotLeader { leader_hint: Some(hint) } =>
                "not leader: Some(LeaderHint { leader_id: PeerId("@
                    + crate::text::decimal(hint.leader_id.0 as nat) + ") })"@,
            RaftError::NoQuorum => "no quorum"@,
            RaftError::TransferTimeout(target) =>
                "leadership transfer to peer "@ + crate::text::decimal(target.0 as nat)
                    + " timed out; leadership retained"@,
            RaftError::TermChanged { current } =>
                "term changed: "@ + crate::text::decimal(current.0 as nat),
            RaftError::Overloaded =>
                "overloaded: client proposal mailbox full; back off and retry"@,
            RaftError::PeerUnknown(peer) =>
                "unknown peer "@ + crate::text::decimal(peer.0 as nat),
            RaftError::InvalidConfig(m) => "invalid config: "@ + m@,
            RaftError::InvalidPayload(m) => "invalid payload: "@ + m@,
            RaftError::Protocol(m) => "protocol error: "@ + m@,
            RaftError::Dispatch(m) => "dispatch error: "@ + m@,
            RaftError::Storage(m) => "storage error: "@ + m@,
            RaftError::Transport(m) => "transport error: "@ + m@,
            RaftError::CorruptLog(m) => "corrupt log: "@ + m@,
            RaftError::Snapshot(m) => "snapshot error: "@ + m@,
            RaftError::Io(fault) => fault.message@,
        }
    }

    /// Renders this error for people.
    pub fn message(&self) -> (r: String)
        ensures
            r@ == self.message_spec(),
    {
        match self {
            RaftError::NotLeader { leader_hint } => match leader_hint {
                None => text("not leader: None"),
                Some(hint) => text_number_text(
                    "not leader: Some(LeaderHint { leader_id: PeerId(",
                    hint.leader_id.0,
                    ") })",
                ),
            },
            RaftError::NoQuorum => text("no quorum"),
            RaftError::TransferTimeout(target) => text_number_text(
                "leadership transfer to peer ",
                target.0,
                " timed out; leadership retained",
            ),
            RaftError::TermChanged { current } => text_number("term changed: ", current.0),
            RaftError::Overloaded => text(
                "overloaded: client proposal mailbox full; back off and retry",
            ),
            RaftError::PeerUnknown(peer) => text_number("unknown peer ", peer.0),
            RaftError::InvalidConfig(m) => text_text("invalid config: ", m.as_str()),
            RaftError::InvalidPayload(m) => text_text("invalid payload: ", m.as_str()),
            RaftError::Protocol(m) => text_text("protocol error: ", m.as_str()),
            RaftError::Dispatch(m) => text_text("dispatch error: ", m.as_str()),
            RaftError::Storage(m) => text_text("storage error: ", m.as_str()),
            RaftError::Transport(m) => text_text("transport error: ", m.as_str()),
            RaftError::CorruptLog(m) => text_text("corrupt log: ", m.as_str()),
            RaftError::Snapshot(m) => text_text("snapshot error: ", m.as_str()),
            RaftError::Io(fault) => text(fault.message.as_str()),
        }
    }
}

impl From<IoFault> for RaftError {
    fn from(value: IoFault) -> (r: Self) {
        RaftError::Io(value)
    }
}

impl vstd::std_specs::convert::FromSpecImpl<IoFault> for RaftError {
    open spec fn obeys_from_spec() -> bool {
        true
    }

    open spec fn from_spec(value: IoFault) -> Self {
        RaftError::Io(value)
    }
}

/// Resource exhaustion never ends the run loop, and an error whose I/O failure
/// was turned into text never counts as resource exhaustion.
pub proof fn law_exhaustion_is_survivable(e: RaftError)
    ensures
        e.class_spec() is Resource ==> !(e.class_spec() is Fatal),
        e.class_spec() is Resource <==> (e matches RaftError::Io(f) && exhausts_resources(f.kind)),
        e is Storage ==> e.class_spec() is Fatal,
{
}

/// Only broken durable state is fatal.
pub proof fn law_fatal_is_durable_damage(e: RaftError)
    ensures
        e.class_spec() is Fatal <==> (e is Storage || e is CorruptLog
            || (e matches RaftError::Io(f) && !exhausts_resources(f.kind))),
{
}

/// A failed write is survivable exactly if the disk was full, a quota was used up or memory
/// ran out. A refusal to serve names where to go, what came from outside is only dropped,
/// and what another try may mend is transient.
pub proof fn law_errors_have_their_class(e: RaftError)
    ensures
        e matches RaftError::Io(f) ==> match f.kind {
            IoFaultKind::Other => e.class_spec() is Fatal,
            _ => e.class_spec() is Resource,
        },
        e.class_spec() is NotLeaderRedirect <==> e is NotLeader,
        e.class_spec() is BadFrame <==> (e is Protocol || e is Dispatch || e is Snapshot
            || e is InvalidPayload || e is InvalidConfig || e is PeerUnknown),
        e.class_spec() is Transient <==> (e is NoQuorum || e is TermChanged || e is Transport
            || e is Overloaded || e is TransferTimeout),
{
}

} // verus!
