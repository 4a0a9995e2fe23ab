use vstd::prelude::*;

use crate::dispatch::spec::DispatchOptions;
use crate::error::RaftError;
use crate::text::text;
use crate::types::PeerId;

verus! {

/// Why a command failed.
#[derive(Clone, Debug, PartialEq, Eq)]
pub enum DispatchFailure {
    Timeout,
    /// The node that sent the command no longer leads.
    LostLeadership,
    Impossible(String),
    Failed(String),
}

/// What a failure says.
pub open spec fn failure_text(failure: DispatchFailure) -> Seq<char> {
    match failure {
        DispatchFailure::Timeout => "dispatch timed out"@,
        DispatchFailure::LostLeadership => "dispatch aborted: leadership lost"@,
        DispatchFailure::Impossible(m) => m@,
        DispatchFailure::Failed(m) => m@,
    }
}

impl DispatchFailure {
    /// The failure as an error.
    pub fn to_error(&self) -> (r: RaftError)
        ensures
            r.is_dispatch(failure_text(*self)),
    {
        match self {
            DispatchFailure::Timeout => RaftError::Dispatch(text("dispatch timed out")),
            DispatchFailure::LostLeadership => RaftError::Dispatch(
                text("dispatch aborted: leadership lost"),
            ),
            DispatchFailure::Impossible(m) => RaftError::Dispatch(text(m.as_str())),
            DispatchFailure::Failed(m) => RaftError::Dispatch(text(m.as_str())),
        }
    }
}

/// How far one target has come.
#[derive(Clone, Debug)]
pub enum DispatchPeerState<R> {
    Pending,
    Progress(Vec<u8>),
    Accepted(R),
    Rejected(Vec<u8>),
    Failed(Vec<u8>),
    Disconnected,
}

/// What a target's state counts as.
#[derive(Clone, Copy, Debug, PartialEq, Eq, Structural)]
pub enum PeerStanding {
    Accepted,
    /// Rejected or failed.
    Failed,
    /// Still expected to answer.
    Waiting,
    Disconnected,
}

/// What a state counts as.
pub open spec fn standing_of<R>(state: DispatchPeerState<R>) -> PeerStanding {
    match state {
        DispatchPeerState::Pending => PeerStanding::Waiting,
        DispatchPeerState::Progress(_) => PeerStanding::Waiting,
        DispatchPeerState::Accepted(_) => PeerStanding::Accepted,
        DispatchPeerState::Rejected(_) => PeerStanding::Failed,
        DispatchPeerState::Failed(_) => PeerStanding::Failed,
        DispatchPeerState::Disconnected => PeerStanding::Disconnected,
    }
}

impl<R> DispatchPeerState<R> {
    /// What the state counts as.
    pub fn standing(&self) -> (r: PeerStanding)
        ensures
            r == standing_of(*self),
    {
        match self {
            DispatchPeerState::Pending => PeerStanding::Waiting,
            DispatchPeerState::Progress(_) => PeerStanding::Waiting,
            DispatchPeerState::Accepted(_) => PeerStanding::Accepted,
            DispatchPeerState::Rejected(_) => PeerStanding::Failed,
            DispatchPeerState::Failed(_) => PeerStanding::Failed,
            DispatchPeerState::Disconnected => PeerStanding::Disconnected,
        }
    }
}

#[derive(Clone, Debug)]
pub struct DispatchPeerResult<R> {
    pub peer: PeerId,
    pub state: DispatchPeerState<R>,
}

/// What every target answered.
#[derive(Clone, Debug)]
pub struct DispatchResult<R> {
    pub tx_id: u64,
    pub command: u8,
    pub options: DispatchOptions,
    pub peers: Vec<DispatchPeerResult<R>>,
}

/// How many targets stand so.
pub open spec fn standing_count<R>(
    peers: Seq<DispatchPeerResult<R>>,
    standing: PeerStanding,
) -> nat
    decreases peers.len(),
{
    if peers.len() == 0 {
        0
    } else {
        standing_count(peers.drop_last(), standing) + if standing_of(peers.last().state)
            == standing {
            1nat
        } else {
            0nat
        }
    }
}

impl<R> DispatchResult<R> {
    /// How many targets stand so.
    pub fn count(&self, standing: PeerStanding) -> (r: usize)
        ensures
            r == standing_count(self.peers@, standing),
            r <= self.peers@.len(),
    {
        let size: usize = self.peers.len();
        let mut n: usize = 0;
        let mut i: usize = 0;
        assert(self.peers@.take(0) =~= Seq::empty());
        while i < size
            invariant
                i <= size,
                size == self.peers@.len(),
                n <= i,
                n == standing_count(self.peers@.take(i as int), standing),
            decreases size - i,
        {
            assert(self.peers@.take(i + 1).drop_last() =~= self.peers@.take(i as int));
            if self.peers[i].state.standing() == standing {
                n = n + 1;
            }
            i = i + 1;
        }
        assert(self.peers@.take(i as int) =~= self.peers@);
        n
    }

    pub fn accepted_count(&self) -> (r: usize)
        ensures
            r == standing_count(self.peers@, PeerStanding::Accepted),
    {
        self.count(PeerStanding::Accepted)
    }

    /// Rejections count as failures.
    pub fn failed_count(&self) -> (r: usize)
        ensures
            r == standing_count(self.peers@, PeerStanding::Failed),
    {
        self.count(PeerStanding::Failed)
    }

    pub fn disconnected_count(&self) -> (r: usize)
        ensures
            r == standing_count(self.peers@, PeerStanding::Disconnected),
    {
        self.count(PeerStanding::Disconnected)
    }
}

} // verus!
