use vstd::prelude::*;

use crate::types::{LogIndex, PeerId, Term};

verus! {

/// State that must be durable before any message is sent.
///
/// The commit index is volatile and does not belong here.
#[derive(Clone, Copy, Debug, PartialEq, Eq, Structural)]
pub struct HardState {
    pub current_term: Term,
    pub voted_for: Option<PeerId>,
}

impl Default for HardState {
    fn default() -> (r: Self)
        ensures
            r.current_term == Term(0),
            r.voted_for is None,
    {
        HardState { current_term: Term(0), voted_for: None }
    }
}

/// State that is rebuilt in memory on every restart.
#[derive(Clone, Copy, Debug, PartialEq, Eq, Structural)]
pub struct SoftState {
    pub leader_id: Option<PeerId>,
    pub is_leader: bool,
    pub role: Role,
    /// Highest log index known to be committed; 0 after a restart.
    pub commit_index: LogIndex,
}

#[derive(Clone, Copy, Debug, PartialEq, Eq, Structural)]
pub enum Role {
    Follower,
    Candidate,
    Leader,
}

/// The last log position that a snapshot covers.
#[derive(Clone, Copy, Debug, PartialEq, Eq, Structural)]
pub struct SnapshotMeta {
    pub last_included_index: LogIndex,
    pub last_included_term: Term,
}

} // verus!
