//! Identifiers shared by every part of the engine.

use vstd::prelude::*;

verus! {

/// The cluster a node belongs to.
#[derive(Clone, Copy, Debug, PartialEq, Eq, PartialOrd, Ord, Hash, Default, Structural)]
pub struct ClusterId(pub u64);

/// A cluster member.
#[derive(Clone, Copy, Debug, PartialEq, Eq, PartialOrd, Ord, Hash, Default, Structural)]
pub struct PeerId(pub u64);

/// A Raft election term.
#[derive(Clone, Copy, Debug, PartialEq, Eq, PartialOrd, Ord, Hash, Default, Structural)]
pub struct Term(pub u64);

/// A position in the replicated log. Entries start at 1; 0 is the empty prefix.
#[derive(Clone, Copy, Debug, PartialEq, Eq, PartialOrd, Ord, Hash, Default, Structural)]
pub struct LogIndex(pub u64);

/// A Raft group multiplexed over one transport. Group 0 is the default group.
#[derive(Clone, Copy, Debug, PartialEq, Eq, PartialOrd, Ord, Hash, Default, Structural)]
pub struct GroupId(pub u64);

/// Where a client should retry a request that reached a node that does not lead.
#[derive(Clone, Copy, Debug, PartialEq, Eq, Structural)]
pub struct LeaderHint {
    pub leader_id: PeerId,
}

} // verus!
