//! The state of one Raft node, and the operations that every part of it uses.

use vstd::prelude::*;

use super::generational::{ArenaModel, LogMetadataArena};
use super::metrics::{bumped, wrapped, zero_counters, RaftMetrics, RaftMetricsSnapshot};
use super::progress::{PeerMap, PeerProgress, PendingModel, PendingSnapshot, SnapshotAttempts};
use super::quorum::{contains, has_majority, voter_majority_spec};
use crate::config::{BootstrapPeer, LimitsConfig, NodeConfig, TimingConfig};
use crate::error::RaftError;
use crate::protocol::message::RaftMessage;
use crate::state::{HardState, Role, SnapshotMeta, SoftState};
use crate::text::text;
use crate::traits::{RaftStorage, StorageModel};
use crate::types::{ClusterId, LeaderHint, LogIndex, PeerId, Term};

verus! {

/// A leadership transfer that awaits its outcome.
#[derive(Clone, Copy, Debug, PartialEq, Eq, Structural)]
pub struct PendingTransfer {
    pub target: PeerId,
    pub deadline_ms: u64,
}

/// A node's consensus state at one moment.
#[derive(Clone, Copy, Debug, PartialEq, Eq, Structural)]
pub struct RaftStatus {
    pub node_id: PeerId,
    pub term: Term,
    pub role: Role,
    /// Who this node believes leads, if it knows.
    pub leader_id: Option<PeerId>,
    pub is_leader: bool,
    /// Highest index known to be committed.
    pub commit_index: LogIndex,
    /// Highest index applied to the state machine.
    pub last_applied: LogIndex,
    pub last_log_index: LogIndex,
    /// Voters in the effective configuration, learners left out.
    pub voter_count: usize,
    /// Whether a membership transition is under way.
    pub config_change_in_progress: bool,
}

/// One Raft node, without its storage and transport.
pub struct RaftNode {
    pub config: NodeConfig,
    pub hard_state: HardState,
    pub soft_state: SoftState,
    pub peer_progress: PeerMap<PeerProgress>,
    /// The old and the new voter set while a transition is under way. A commit
    /// then needs a majority of each; `config.peers` holds the union.
    pub joint_peers: Option<(Vec<PeerId>, Vec<PeerId>)>,
    pub pending_snapshots: PeerMap<PendingSnapshot>,
    pub snapshot_attempts: PeerMap<SnapshotAttempts>,
    pub log_metadata: LogMetadataArena,
    /// When each voter was last heard from at the current term, in milliseconds.
    pub last_voter_contact: PeerMap<u64>,
    /// The position of the log's tip.
    pub cached_last_log: (LogIndex, Term),
    /// The last position the latest snapshot covers, or zeros.
    pub snapshot_boundary: (LogIndex, Term),
    pub metrics: RaftMetrics,
    /// Highest index applied to the state machine.
    pub last_applied: LogIndex,
    /// Entries applied since the last snapshot.
    pub compaction_debt_entries: u64,
    /// Payload bytes applied since the last snapshot.
    pub compaction_debt_bytes: u64,
    /// When a current leader was last heard from, in milliseconds.
    pub last_leader_contact: Option<u64>,
    pub pending_transfer: Option<PendingTransfer>,
    /// The term at which an immediate campaign was sanctioned.
    pub forced_campaign_term: Option<Term>,
    /// The token stamped on append requests; 0 means no probe yet.
    pub read_probe_seq: u32,
}

/// What a [`RaftNode`] stands for.
#[verifier::ext_equal]
pub struct NodeModel {
    pub cluster_id: ClusterId,
    pub node_id: PeerId,
    pub peers: Seq<PeerId>,
    pub learners: Seq<PeerId>,
    pub bootstrap_peers: Seq<BootstrapPeer>,
    pub timing: TimingConfig,
    pub limits: LimitsConfig,
    pub hard: HardState,
    pub soft: SoftState,
    pub progress: Map<PeerId, PeerProgress>,
    pub joint: Option<(Seq<PeerId>, Seq<PeerId>)>,
    pub pending: Map<PeerId, PendingModel>,
    pub attempts: Map<PeerId, SnapshotAttempts>,
    pub arena: ArenaModel,
    pub contact: Map<PeerId, u64>,
    pub last_log: (LogIndex, Term),
    pub boundary: (LogIndex, Term),
    pub counters: RaftMetricsSnapshot,
    pub last_applied: LogIndex,
    pub debt_entries: u64,
    pub debt_bytes: u64,
    pub leader_contact: Option<u64>,
    pub transfer: Option<PendingTransfer>,
    pub forced: Option<Term>,
    pub probe: u32,
}

/// The contents of a voter-set pair.
pub open spec fn joint_view(joint: Option<(Vec<PeerId>, Vec<PeerId>)>) -> Option<
    (Seq<PeerId>, Seq<PeerId>),
> {
    match joint {
        Some((o, n)) => Some((o@, n@)),
        None => None,
    }
}

impl View for RaftNode {
    type V = NodeModel;

    open spec fn view(&self) -> NodeModel {
        NodeModel {
            cluster_id: self.config.cluster_id,
            node_id: self.config.node_id,
            peers: self.config.peers@,
            learners: self.config.learners@,
            bootstrap_peers: self.config.bootstrap_peers@,
            timing: self.config.timing,
            limits: self.config.limits,
            hard: self.hard_state,
            soft: self.soft_state,
            progress: self.peer_progress@,
            joint: joint_view(self.joint_peers),
            pending: self.pending_snapshots@.map_values(|p: PendingSnapshot| p@),
            attempts: self.snapshot_attempts@,
            arena: self.log_metadata@,
            contact: self.last_voter_contact@,
            last_log: self.cached_last_log,
            boundary: self.snapshot_boundary,
            counters: self.metrics.counters,
            last_applied: self.last_applied,
            debt_entries: self.compaction_debt_entries,
            debt_bytes: self.compaction_debt_bytes,
            leader_contact: self.last_leader_contact,
            transfer: self.pending_transfer,
            forced: self.forced_campaign_term,
            probe: self.read_probe_seq,
        }
    }
}

impl NodeModel {
    /// Whether the node leads.
    pub open spec fn leads(self) -> bool {
        self.soft.role is Leader
    }

    /// What holds of every node between two operations: the leader flag follows
    /// the role, nothing uncommitted is applied, and no voter is a learner.
    pub open spec fn wf(self) -> bool {
        &&& self.soft.is_leader == self.leads()
        &&& self.last_applied.0 <= self.soft.commit_index.0
        &&& forall|p: PeerId| #[trigger] self.peers.contains(p) ==> !self.learners.contains(p)
    }

    /// Whether `acked` holds a majority of the effective configuration.
    pub open spec fn majority(self, acked: Seq<PeerId>) -> bool {
        voter_majority_spec(self.peers, self.joint, acked)
    }

    /// The node demoted to follower, its durable state untouched.
    pub open spec fn demoted(self) -> NodeModel {
        NodeModel {
            soft: SoftState {
                role: Role::Follower,
                is_leader: false,
                leader_id: None,
                commit_index: self.soft.commit_index,
            },
            counters: if self.soft.role is Follower {
                self.counters
            } else {
                RaftMetricsSnapshot {
                    step_downs: bumped(self.counters.step_downs),
                    ..self.counters
                }
            },
            progress: Map::empty(),
            pending: Map::empty(),
            attempts: Map::empty(),
            contact: Map::empty(),
            transfer: None,
            ..self
        }
    }

    /// The node with a new term and no vote, before that is durable.
    pub open spec fn at_term(self, term: Term) -> NodeModel {
        NodeModel { hard: HardState { current_term: term, voted_for: None }, ..self }
    }

    /// The node after it gave way to `term`.
    pub open spec fn stepped_down(self, term: Term) -> NodeModel {
        self.at_term(term).demoted()
    }

    /// The node after a message at `term` made it give way where `term` is
    /// newer than its own.
    pub open spec fn caught_up_with(self, term: u64) -> NodeModel {
        if term > self.hard.current_term.0 {
            self.stepped_down(Term(term))
        } else {
            self
        }
    }

    /// The node with the commit index at `index`.
    pub open spec fn committed_to(self, index: LogIndex) -> NodeModel {
        NodeModel { soft: SoftState { commit_index: index, ..self.soft }, ..self }
    }

    /// How long an election may take, in milliseconds.
    pub open spec fn election_timeout(self) -> u64 {
        if self.timing.election_max_ms == 0 {
            1
        } else {
            self.timing.election_max_ms
        }
    }

    /// The error for a request that only the leader serves.
    pub open spec fn is_not_leader_error(self, e: RaftError) -> bool {
        e matches RaftError::NotLeader { leader_hint } && leader_hint == match self.soft.leader_id {
            Some(leader_id) => Some(LeaderHint { leader_id }),
            None => None,
        }
    }
}

/// What a storage holds after the hard state was saved.
pub open spec fn saved(before: StorageModel, hard_state: HardState) -> StorageModel {
    StorageModel { hard_state, ..before }
}

/// How a step-down to `term` came out.
pub open spec fn step_down_outcome(
    before: NodeModel,
    stored: StorageModel,
    term: Term,
    r: Result<(), RaftError>,
    after: NodeModel,
    stored_after: StorageModel,
) -> bool {
    match r {
        Ok(()) => after == before.stepped_down(term) && stored_after == saved(
            stored,
            before.at_term(term).hard,
        ),
        Err(e) => after == before.at_term(term) && crate::traits::refused_cleanly(
            e,
            stored,
            stored_after,
        ),
    }
}

/// Whether `after` is `stored` without the log from `from` on.
pub open spec fn cut_from(stored: StorageModel, from: LogIndex, after: StorageModel) -> bool {
    &&& after.log == crate::traits::log_before(stored.log, from.0 as int)
    &&& after.hard_state == stored.hard_state
    &&& after.snapshot == stored.snapshot
    &&& crate::traits::is_tip(after.tip, after.log, after.snapshot)
}

/// The terms of the protocol that a message carries; custom messages carry none.
pub open spec fn message_term_spec(msg: RaftMessage<'_>) -> Option<Term> {
    match msg {
        RaftMessage::RequestVote(m) => Some(Term(m.term)),
        RaftMessage::PreVote(m) => Some(Term(m.term)),
        RaftMessage::RequestVoteResp(m) => Some(Term(m.term)),
        RaftMessage::PreVoteResp(m) => Some(Term(m.term)),
        RaftMessage::AppendEntries(m, _) => Some(Term(m.term)),
        RaftMessage::AppendEntriesVectored(m, _) => Some(Term(m.term)),
        RaftMessage::AppendEntriesSeeded { ae, .. } => Some(Term(ae.term)),
        RaftMessage::AppendEntriesSeededVectored { ae, .. } => Some(Term(ae.term)),
        RaftMessage::AppendEntriesResp(m) => Some(Term(m.term)),
        RaftMessage::InstallSnapshot(m, _) => Some(Term(m.term)),
        RaftMessage::InstallSnapshotResp(m) => Some(Term(m.term)),
        RaftMessage::TimeoutNow(m) => Some(Term(m.term)),
        RaftMessage::Custom(_) => None,
        RaftMessage::CustomResponse(_) => None,
    }
}

/// The term that a message carries.
pub fn message_term(msg: &RaftMessage<'_>) -> (r: Option<Term>)
    ensures
        r == message_term_spec(*msg),
{
    match msg {
        RaftMessage::RequestVote(m) => Some(Term(m.term)),
        RaftMessage::PreVote(m) => Some(Term(m.term)),
        RaftMessage::RequestVoteResp(m) => Some(Term(m.term)),
        RaftMessage::PreVoteResp(m) => Some(Term(m.term)),
        RaftMessage::AppendEntries(m, _) => Some(Term(m.term)),
        RaftMessage::AppendEntriesVectored(m, _) => Some(Term(m.term)),
        RaftMessage::AppendEntriesSeeded { ae, .. } => Some(Term(ae.term)),
        RaftMessage::AppendEntriesSeededVectored { ae, .. } => Some(Term(ae.term)),
        RaftMessage::AppendEntriesResp(m) => Some(Term(m.term)),
        RaftMessage::InstallSnapshot(m, _) => Some(Term(m.term)),
        RaftMessage::InstallSnapshotResp(m) => Some(Term(m.term)),
        RaftMessage::TimeoutNow(m) => Some(Term(m.term)),
        RaftMessage::Custom(_) => None,
        RaftMessage::CustomResponse(_) => None,
    }
}

/// How many terms the arena of a node remembers.
pub const ARENA_CAPACITY: usize = 8192;

/// Whether a startup configuration keeps voters and learners apart.
pub open spec fn valid_config(config: NodeConfig) -> bool {
    forall|p: PeerId| #[trigger] config.peers@.contains(p) ==> !config.learners@.contains(p)
}

/// Checks that no voter is also a learner.
pub fn validate_node_config(config: &NodeConfig) -> (r: Result<(), RaftError>)
    ensures
        valid_config(*config) ==> r is Ok,
        !valid_config(*config) ==> (r matches Err(RaftError::InvalidConfig(m)) && m@
            == "learners must be disjoint from peers"@),
{
    let mut i: usize = 0;
    while i < config.peers.len()
        invariant
            i <= config.peers@.len(),
            forall|j: int| 0 <= j < i ==> !config.learners@.contains(config.peers@[j]),
        decreases config.peers@.len() - i,
    {
        if contains(&config.learners, config.peers[i]) {
            assert(config.peers@.contains(config.peers@[i as int]));
            return Err(RaftError::InvalidConfig(text("learners must be disjoint from peers")));
        }
        i = i + 1;
    }
    Ok(())
}

/// How the question came out whether the learner `peer` has everything committed.
pub open spec fn learner_outcome(m: NodeModel, peer: PeerId, r: Result<bool, RaftError>) -> bool {
    if !m.leads() {
        r matches Err(e) && m.is_not_leader_error(e)
    } else if !m.learners.contains(peer) {
        r matches Err(RaftError::PeerUnknown(p)) && p == peer
    } else {
        r matches Ok(b) && b == (m.progress.dom().contains(peer) && m.progress[peer].match_index.0
            >= m.soft.commit_index.0)
    }
}

/// A node that has just started: a follower of nobody. The commit index and the
/// applied index start at 0; the snapshot boundary is recovered, so that terms
/// at it stay known.
pub open spec fn started(
    config: NodeConfig,
    hard_state: HardState,
    last_log: (LogIndex, Term),
    snapshot: Option<SnapshotMeta>,
) -> NodeModel {
    NodeModel {
        cluster_id: config.cluster_id,
        node_id: config.node_id,
        peers: config.peers@,
        learners: config.learners@,
        bootstrap_peers: config.bootstrap_peers@,
        timing: config.timing,
        limits: config.limits,
        hard: hard_state,
        soft: SoftState {
            leader_id: None,
            is_leader: false,
            role: Role::Follower,
            commit_index: LogIndex(0),
        },
        progress: Map::empty(),
        joint: None,
        pending: Map::empty(),
        attempts: Map::empty(),
        arena: ArenaModel {
            capacity: ARENA_CAPACITY as nat,
            base: 0,
            terms: Seq::empty(),
        },
        contact: Map::empty(),
        last_log,
        boundary: match snapshot {
            Some(meta) => (meta.last_included_index, meta.last_included_term),
            None => (LogIndex(0), Term(0)),
        },
        counters: zero_counters(),
        last_applied: LogIndex(0),
        debt_entries: 0,
        debt_bytes: 0,
        leader_contact: None,
        transfer: None,
        forced: None,
        probe: 0,
    }
}

impl RaftNode {
    /// Starts a node from what its storage holds.
    pub fn new<S: RaftStorage>(config: NodeConfig, storage: &S) -> (r: Result<Self, RaftError>)
        ensures
            match r {
                Ok(node) => valid_config(config) && node@.wf() && node@ == started(
                    config,
                    storage.model().hard_state,
                    storage.model().tip,
                    match storage.model().snapshot {
                        Some((meta, _)) => Some(meta),
                        None => None,
                    },
                ),
                Err(e) => if valid_config(config) {
                    S::fails_with(e)
                } else {
                    e matches RaftError::InvalidConfig(m) && m@
                        == "learners must be disjoint from peers"@
                },
            },
    {
        match validate_node_config(&config) {
            Err(e) => {
                return Err(e);
            },
            Ok(()) => {},
        }
        let hard_state: HardState = match storage.load_hard_state() {
            Err(e) => {
                return Err(e);
            },
            Ok(hard_state) => hard_state,
        };
        let last_log: (LogIndex, Term) = match storage.last_log_position() {
            Err(e) => {
                return Err(e);
            },
            Ok(tip) => tip,
        };
        match storage.load_snapshot_meta() {
            Err(e) => Err(e),
            Ok(snapshot) => RaftNode::start(config, hard_state, last_log, snapshot),
        }
    }

    /// Starts a node from what was read of its storage.
    pub fn start(
        config: NodeConfig,
        hard_state: HardState,
        last_log: (LogIndex, Term),
        snapshot: Option<SnapshotMeta>,
    ) -> (r: Result<Self, RaftError>)
        ensures
            valid_config(config) ==> (r matches Ok(node) && node@ == started(
                config,
                hard_state,
                last_log,
                snapshot,
            ) && node@.wf()),
            !valid_config(config) ==> (r matches Err(RaftError::InvalidConfig(m)) && m@
                == "learners must be disjoint from peers"@),
    {
        match validate_node_config(&config) {
            Err(e) => {
                return Err(e);
            },
            Ok(()) => {},
        }
        let boundary = match snapshot {
            Some(meta) => (meta.last_included_index, meta.last_included_term),
            None => (LogIndex(0), Term(0)),
        };
        let peer_count: usize = config.peers.len();
        let node = RaftNode {
            config,
            hard_state,
            soft_state: SoftState {
                leader_id: None,
                is_leader: false,
                role: Role::Follower,
                commit_index: LogIndex(0),
            },
            peer_progress: PeerMap::with_capacity(peer_count),
            joint_peers: None,
            pending_snapshots: PeerMap::with_capacity(peer_count),
            snapshot_attempts: PeerMap::with_capacity(peer_count),
            log_metadata: LogMetadataArena::new(ARENA_CAPACITY),
            last_voter_contact: PeerMap::with_capacity(peer_count),
            cached_last_log: last_log,
            snapshot_boundary: boundary,
            metrics: RaftMetrics::default(),
            last_applied: LogIndex(0),
            compaction_debt_entries: 0,
            compaction_debt_bytes: 0,
            last_leader_contact: None,
            pending_transfer: None,
            forced_campaign_term: None,
            read_probe_seq: 0,
        };
        assert(node@.pending =~= Map::empty());
        Ok(node)
    }

    /// Moves the commit index. Every change of it goes through here.
    pub fn set_commit_index(&mut self, idx: LogIndex)
        ensures
            final(self)@ == old(self)@.committed_to(idx),
    {
        self.soft_state.commit_index = idx;
    }

    pub fn role(&self) -> (r: Role)
        ensures
            r == self@.soft.role,
    {
        self.soft_state.role
    }

    pub fn node_id(&self) -> (r: PeerId)
        ensures
            r == self@.node_id,
    {
        self.config.node_id
    }

    /// The voters.
    pub fn peers(&self) -> (r: &Vec<PeerId>)
        ensures
            r@ == self@.peers,
    {
        &self.config.peers
    }

    /// The non-voting members.
    pub fn learners(&self) -> (r: &Vec<PeerId>)
        ensures
            r@ == self@.learners,
    {
        &self.config.learners
    }

    /// Whether everything this leader knows committed has reached the learner
    /// `peer`.
    pub fn learner_caught_up(&self, peer: PeerId) -> (r: Result<bool, RaftError>)
        ensures
            learner_outcome(self@, peer, r),
    {
        if !self.is_leader() {
            return Err(self.not_leader_error());
        }
        if !contains(&self.config.learners, peer) {
            return Err(RaftError::PeerUnknown(peer));
        }
        match self.peer_progress.get(peer) {
            Some(p) => Ok(p.match_index.0 >= self.soft_state.commit_index.0),
            None => Ok(false),
        }
    }

    pub fn timing(&self) -> (r: TimingConfig)
        ensures
            r == self@.timing,
    {
        self.config.timing
    }

    pub fn is_leader(&self) -> (r: bool)
        ensures
            r == self@.leads(),
    {
        matches!(self.soft_state.role, Role::Leader)
    }

    /// The error for a request that only the leader serves, with a hint at
    /// whoever this node believes leads.
    pub fn not_leader_error(&self) -> (r: RaftError)
        ensures
            self@.is_not_leader_error(r),
    {
        RaftError::NotLeader {
            leader_hint: match self.soft_state.leader_id {
                Some(leader_id) => Some(LeaderHint { leader_id }),
                None => None,
            },
        }
    }

    pub fn current_term(&self) -> (r: Term)
        ensures
            r == self@.hard.current_term,
    {
        self.hard_state.current_term
    }

    pub fn hard_state(&self) -> (r: &HardState)
        ensures
            *r == self@.hard,
    {
        &self.hard_state
    }

    pub fn commit_index(&self) -> (r: LogIndex)
        ensures
            r == self@.soft.commit_index,
    {
        self.soft_state.commit_index
    }

    pub fn last_applied(&self) -> (r: LogIndex)
        ensures
            r == self@.last_applied,
    {
        self.last_applied
    }

    pub fn leader_id(&self) -> (r: Option<PeerId>)
        ensures
            r == self@.soft.leader_id,
    {
        self.soft_state.leader_id
    }

    /// The counters, as they stand.
    pub fn metrics(&self) -> (r: &RaftMetrics)
        ensures
            r.counters == self@.counters,
    {
        &self.metrics
    }

    /// A consistent picture of this node's consensus state.
    pub fn status(&self) -> (r: RaftStatus)
        ensures
            r == (RaftStatus {
                node_id: self@.node_id,
                term: self@.hard.current_term,
                role: self@.soft.role,
                leader_id: self@.soft.leader_id,
                is_leader: self@.leads(),
                commit_index: self@.soft.commit_index,
                last_applied: self@.last_applied,
                last_log_index: self@.last_log.0,
                voter_count: self@.peers.len() as usize,
                config_change_in_progress: self@.joint is Some,
            }),
            r.voter_count == self@.peers.len(),
    {
        RaftStatus {
            node_id: self.config.node_id,
            term: self.hard_state.current_term,
            role: self.soft_state.role,
            leader_id: self.soft_state.leader_id,
            is_leader: self.is_leader(),
            commit_index: self.soft_state.commit_index,
            last_applied: self.last_applied,
            last_log_index: self.cached_last_log.0,
            voter_count: self.config.peers.len(),
            config_change_in_progress: self.joint_peers.is_some(),
        }
    }

    /// Moves the applied cursor, which never passes the commit index.
    pub fn set_last_applied(&mut self, idx: LogIndex)
        requires
            idx.0 <= old(self)@.soft.commit_index.0,
        ensures
            final(self)@ == (NodeModel { last_applied: idx, ..old(self)@ }),
    {
        self.last_applied = idx;
    }

    pub fn peer_progress(&self, peer: PeerId) -> (r: Option<(LogIndex, LogIndex)>)
        ensures
            self@.progress.dom().contains(peer) ==> r == Some(
                (self@.progress[peer].next_index, self@.progress[peer].match_index),
            ),
            !self@.progress.dom().contains(peer) ==> r is None,
    {
        match self.peer_progress.get(peer) {
            Some(p) => Some((p.next_index, p.match_index)),
            None => None,
        }
    }

    /// The longest an election may take, in milliseconds; at least 1.
    pub fn election_timeout(&self) -> (r: u64)
        ensures
            r == self@.election_timeout(),
    {
        if self.config.timing.election_max_ms == 0 {
            1
        } else {
            self.config.timing.election_max_ms
        }
    }

    /// Gives way to `new_term`: adopts it without a vote, makes that durable,
    /// and becomes a follower. Where the storage refuses, the node keeps its
    /// role.
    pub fn step_down<S: RaftStorage>(&mut self, storage: &mut S, new_term: Term) -> (r: Result<
        (),
        RaftError,
    >)
        ensures
            step_down_outcome(
                old(self)@,
                old(storage).model(),
                new_term,
                r,
                final(self)@,
                final(storage).model(),
            ),
            r matches Err(e) ==> S::fails_with(e),
    {
        self.hard_state.current_term = new_term;
        self.hard_state.voted_for = None;
        match storage.save_hard_state(&self.hard_state) {
            Err(e) => {
                return Err(e);
            },
            Ok(()) => {},
        }
        self.demote_to_follower_keep_term();
        Ok(())
    }

    /// Becomes a follower of the current term. Durable state is untouched, so
    /// this needs no write and cannot fail.
    pub fn demote_to_follower_keep_term(&mut self)
        ensures
            final(self)@ == old(self)@.demoted(),
    {
        if !matches!(self.soft_state.role, Role::Follower) {
            self.metrics.inc_step_downs();
        }
        self.soft_state.role = Role::Follower;
        self.soft_state.is_leader = false;
        self.soft_state.leader_id = None;
        self.peer_progress.clear();
        self.pending_snapshots.clear();
        self.snapshot_attempts.clear();
        self.last_voter_contact.clear();
        self.pending_transfer = None;
        assert(self@.pending =~= Map::empty());
    }

    /// Removes the log from `from` on, in the storage and in the arena, and
    /// takes the tip from the storage.
    pub fn storage_truncate<S: RaftStorage>(&mut self, storage: &mut S, from: LogIndex) -> (r:
        Result<(), RaftError>)
        ensures
            r is Ok ==> {
                &&& final(self)@ == (NodeModel {
                    arena: old(self)@.arena.truncated(from.0),
                    last_log: final(storage).model().tip,
                    ..old(self)@
                })
                &&& cut_from(old(storage).model(), from, final(storage).model())
            },
            r matches Err(e) ==> {
                &&& S::fails_with(e)
                &&& (final(self)@ == old(self)@ && crate::traits::refused_cleanly(
                    e,
                    old(storage).model(),
                    final(storage).model(),
                )) || {
                    &&& final(self)@ == (NodeModel {
                        arena: old(self)@.arena.truncated(from.0),
                        ..old(self)@
                    })
                    &&& cut_from(old(storage).model(), from, final(storage).model())
                }
            },
    {
        match storage.truncate_suffix(from) {
            Err(e) => {
                return Err(e);
            },
            Ok(()) => {},
        }
        self.log_metadata.truncate_suffix(from);
        match storage.last_log_position() {
            Err(e) => {
                return Err(e);
            },
            Ok(tip) => {
                self.cached_last_log = tip;
            },
        }
        Ok(())
    }

    /// Whether `acked` holds a majority of the voters, or of both voter sets
    /// while a transition is under way.
    pub fn voter_majority(&self, acked: &Vec<PeerId>) -> (r: bool)
        ensures
            r == self@.majority(acked@),
    {
        match &self.joint_peers {
            Some((old_peers, new_peers)) => has_majority(old_peers, acked) && has_majority(
                new_peers,
                acked,
            ),
            None => has_majority(&self.config.peers, acked),
        }
    }

    /// Records that `from` was heard from. Only a voter's frame at the leader's
    /// own term counts.
    pub fn note_contact(&mut self, from: PeerId, msg: &RaftMessage<'_>, now_ms: u64)
        ensures
            final(self)@ == old(self)@.heard(from, *msg, now_ms),
    {
        if self.is_leader() && contains(&self.config.peers, from) {
            match message_term(msg) {
                Some(term) => {
                    if term == self.hard_state.current_term {
                        self.last_voter_contact.insert(from, now_ms);
                    }
                },
                None => {},
            }
        }
    }

    /// Whether a majority of the voters, this node included, was heard from
    /// within the last election timeout.
    pub fn check_quorum_active(&self, now_ms: u64) -> (r: bool)
        ensures
            r == self@.majority(self@.active_voters(now_ms)),
    {
        let timeout: u64 = self.election_timeout();
        let mut active: Vec<PeerId> = Vec::new();
        active.push(self.config.node_id);
        let mut i: usize = 0;
        assert(self.config.peers@.take(0) =~= Seq::empty());
        assert(active@ =~= self@.active_among(self.config.peers@.take(0), now_ms));
        while i < self.config.peers.len()
            invariant
                i <= self.config.peers@.len(),
                timeout == self@.election_timeout(),
                active@ == self@.active_among(self.config.peers@.take(i as int), now_ms),
            decreases self.config.peers@.len() - i,
        {
            let peer = self.config.peers[i];
            assert(self.config.peers@.take(i + 1).drop_last() =~= self.config.peers@.take(
                i as int,
            ));
            if peer != self.config.node_id {
                match self.last_voter_contact.get(peer) {
                    Some(last) => {
                        if now_ms.saturating_sub(*last) < timeout {
                            active.push(peer);
                        }
                    },
                    None => {},
                }
            }
            i = i + 1;
        }
        assert(self.config.peers@.take(i as int) =~= self.config.peers@);
        self.voter_majority(&active)
    }

    /// Drops every inbound snapshot transfer that has stalled, and says how
    /// many there were.
    pub fn evict_stalled_snapshots(&mut self, now_ms: u64) -> (r: usize)
        ensures
            final(self)@ == old(self)@.swept(now_ms),
            old(self)@.pending.dom().finite(),
            r == old(self)@.pending.dom().len() - final(self)@.pending.dom().len(),
    {
        let total: usize = self.pending_snapshots.len();
        proof {
            assert(self@.pending.dom() =~= self.pending_snapshots@.dom());
        }
        let ghost all = self.pending_snapshots@;
        let mut stale: Vec<PeerId> = Vec::new();
        let mut i: usize = 0;
        while i < total
            invariant
                i <= total,
                total == self.pending_snapshots.pairs().len(),
                self.pending_snapshots@ == all,
                forall|k: PeerId| stale@.contains(k) ==> all.dom().contains(k) && now_ms
                    > all[k].deadline_ms,
                forall|j: int| #![trigger self.pending_snapshots.pairs()[j]]
                    0 <= j < i && now_ms > self.pending_snapshots.pairs()[j].1.deadline_ms
                        ==> stale@.contains(self.pending_snapshots.pairs()[j].0),
                forall|j: int| #![trigger self.pending_snapshots.pairs()[j]]
                    0 <= j < i ==> all[self.pending_snapshots.pairs()[j].0]
                        == self.pending_snapshots.pairs()[j].1,
            decreases total - i,
        {
            let (peer, snap) = self.pending_snapshots.at(i);
            if snap.is_expired(now_ms) {
                let ghost held = stale@;
                stale.push(peer);
                proof {
                    assert(stale@[held.len() as int] == peer);
                    assert forall|k: PeerId| stale@.contains(k) implies all.dom().contains(k)
                        && now_ms > all[k].deadline_ms by {
                        let x = choose|x: int| 0 <= x < stale@.len() && stale@[x] == k;
                        if x < held.len() {
                            assert(held[x] == k);
                            assert(held.contains(k));
                        }
                    }
                    assert forall|k: PeerId| held.contains(k) implies stale@.contains(k) by {
                        let x = choose|x: int| 0 <= x < held.len() && held[x] == k;
                        assert(stale@[x] == k);
                    }
                }
            }
            i = i + 1;
        }
        proof {
            assert forall|k: PeerId| all.dom().contains(k) && now_ms > all[k].deadline_ms implies
                stale@.contains(k) by {
                self.pending_snapshots.lemma_walk_covers(k);
            }
        }
        let ghost before = self@;
        let mut n: usize = 0;
        let mut j: usize = 0;
        while j < stale.len()
            invariant
                j <= stale@.len(),
                n <= j,
                all.dom().finite(),
                total == all.dom().len(),
                forall|k: PeerId| stale@.contains(k) ==> all.dom().contains(k),
                self.pending_snapshots@ == all.remove_keys(stale@.take(j as int).to_set()),
                n == total - self.pending_snapshots@.dom().len(),
                self@ == (NodeModel {
                    pending: self@.pending,
                    counters: RaftMetricsSnapshot {
                        snapshots_evicted: wrapped(
                            before.counters.snapshots_evicted,
                            n as nat,
                        ),
                        ..before.counters
                    },
                    ..before
                }),
            decreases stale@.len() - j,
        {
            let peer = stale[j];
            let ghost held = self.pending_snapshots@;
            let was: usize = self.pending_snapshots.len();
            let there: bool = self.pending_snapshots.contains_key(peer);
            self.pending_snapshots.remove(peer);
            proof {
                assert(stale@.contains(peer));
                assert(stale@.take(j + 1).to_set() =~= stale@.take(j as int).to_set().insert(
                    peer,
                )) by {
                    lemma_take_set(stale@, j as int);
                }
                assert(self.pending_snapshots@ =~= all.remove_keys(
                    stale@.take(j + 1).to_set(),
                ));
                if !there {
                    assert(self.pending_snapshots@ =~= held);
                }
            }
            if there {
                self.metrics.inc_snapshots_evicted();
                n = n + 1;
            }
            j = j + 1;
        }
        proof {
            assert(stale@.take(j as int) =~= stale@);
            assert(self@.pending =~= live_transfers(old(self)@.pending, now_ms));
            assert(self@.pending.dom() =~= self.pending_snapshots@.dom());
        }
        n
    }

    /// Makes this node the leader of `term` without an election.
    pub fn become_leader_for_benchmark(&mut self, term: Term, now_ms: u64)
        ensures
            final(self)@ == (NodeModel {
                soft: SoftState {
                    is_leader: true,
                    role: Role::Leader,
                    leader_id: Some(old(self)@.node_id),
                    commit_index: old(self)@.soft.commit_index,
                },
                hard: HardState { current_term: term, ..old(self)@.hard },
                ..old(self)@
            }).with_leader_progress(now_ms),
    {
        self.soft_state.is_leader = true;
        self.soft_state.role = Role::Leader;
        self.hard_state.current_term = term;
        self.soft_state.leader_id = Some(self.config.node_id);
        self.initialize_leader_progress(now_ms);
    }
}

proof fn lemma_take_set(s: Seq<PeerId>, j: int)
    requires
        0 <= j < s.len(),
    ensures
        s.take(j + 1).to_set() == s.take(j).to_set().insert(s[j]),
{
    let a = s.take(j + 1);
    let b = s.take(j);
    assert forall|k: PeerId| a.to_set().contains(k) == b.to_set().insert(s[j]).contains(k) by {
        if a.contains(k) {
            let x = choose|x: int| 0 <= x < a.len() && a[x] == k;
            if x < j {
                assert(b[x] == k);
            }
        }
        if b.contains(k) {
            let x = choose|x: int| 0 <= x < b.len() && b[x] == k;
            assert(a[x] == k);
        }
        if k == s[j] {
            assert(a[j] == k);
        }
    }
    assert(a.to_set() =~= b.to_set().insert(s[j]));
}

/// The transfers that have not stalled.
pub open spec fn live_transfers(pending: Map<PeerId, PendingModel>, now_ms: u64) -> Map<
    PeerId,
    PendingModel,
> {
    pending.restrict(
        Set::new(|k: PeerId| pending.dom().contains(k) && !(now_ms > pending[k].deadline_ms)),
    )
}

impl NodeModel {
    /// The node without the transfers that have stalled; each of them counts.
    pub open spec fn swept(self, now_ms: u64) -> NodeModel {
        let live = live_transfers(self.pending, now_ms);
        NodeModel {
            pending: live,
            counters: RaftMetricsSnapshot {
                snapshots_evicted: wrapped(
                    self.counters.snapshots_evicted,
                    (self.pending.dom().len() - live.dom().len()) as nat,
                ),
                ..self.counters
            },
            ..self
        }
    }

    /// The node after a frame from `from` arrived.
    pub open spec fn heard(self, from: PeerId, msg: RaftMessage<'_>, now_ms: u64) -> NodeModel {
        if self.leads() && self.peers.contains(from) && message_term_spec(msg) == Some(
            self.hard.current_term,
        ) {
            NodeModel { contact: self.contact.insert(from, now_ms), ..self }
        } else {
            self
        }
    }

    /// Whether `peer` was heard from within the last election timeout.
    pub open spec fn recently_heard(self, peer: PeerId, now_ms: u64) -> bool {
        self.contact.dom().contains(peer) && now_ms - self.contact[peer]
            < self.election_timeout()
    }

    /// This node, and those of `peers` that were heard from recently.
    pub open spec fn active_among(self, peers: Seq<PeerId>, now_ms: u64) -> Seq<PeerId>
        decreases peers.len(),
    {
        if peers.len() == 0 {
            seq![self.node_id]
        } else {
            let rest = self.active_among(peers.drop_last(), now_ms);
            if peers.last() != self.node_id && self.recently_heard(peers.last(), now_ms) {
                rest.push(peers.last())
            } else {
                rest
            }
        }
    }

    /// The voters that keep the leader's lease alive.
    pub open spec fn active_voters(self, now_ms: u64) -> Seq<PeerId> {
        self.active_among(self.peers, now_ms)
    }

    /// The progress a leader starts a peer with: the next entry to send is the
    /// one after the log's tip, and nothing is known to match.
    pub open spec fn fresh_progress(self) -> PeerProgress {
        PeerProgress {
            next_index: LogIndex(
                if self.last_log.0.0 == u64::MAX {
                    u64::MAX
                } else {
                    (self.last_log.0.0 + 1) as u64
                },
            ),
            match_index: LogIndex(0),
        }
    }

    /// Whether `p` is another member, voter or learner.
    pub open spec fn other_member(self, p: PeerId) -> bool {
        p != self.node_id && (self.peers.contains(p) || self.learners.contains(p))
    }

    /// The node with fresh progress for every other member and for nobody else,
    /// and every other voter counting as heard from at `now_ms`.
    pub open spec fn with_leader_progress(self, now_ms: u64) -> NodeModel {
        NodeModel {
            progress: Map::new(
                |p: PeerId| self.other_member(p),
                |p: PeerId| self.fresh_progress(),
            ),
            contact: Map::new(
                |p: PeerId| p != self.node_id && self.peers.contains(p),
                |p: PeerId| now_ms,
            ),
            ..self
        }
    }
}

impl RaftNode {
    /// Starts replication afresh: every other member gets fresh progress, and
    /// every other voter, but no learner, counts as heard from just now.
    pub fn initialize_leader_progress(&mut self, now_ms: u64)
        ensures
            final(self)@ == old(self)@.with_leader_progress(now_ms),
    {
        self.peer_progress.clear();
        self.last_voter_contact.clear();
        let fresh = PeerProgress {
            next_index: LogIndex(self.cached_last_log.0.0.saturating_add(1)),
            match_index: LogIndex(0),
        };
        let ghost before = old(self)@;
        let mut i: usize = 0;
        while i < self.config.peers.len()
            invariant
                i <= self.config.peers@.len(),
                fresh == before.fresh_progress(),
                self@ == (NodeModel {
                    progress: self@.progress,
                    contact: self@.contact,
                    ..before
                }),
                forall|p: PeerId| #[trigger] self@.progress.dom().contains(p) <==> p
                    != before.node_id && before.peers.take(i as int).contains(p),
                forall|p: PeerId| #[trigger] self@.progress.dom().contains(p)
                    ==> self@.progress[p] == fresh,
                forall|p: PeerId| #[trigger] self@.contact.dom().contains(p) <==> p
                    != before.node_id && before.peers.take(i as int).contains(p),
                forall|p: PeerId| #[trigger] self@.contact.dom().contains(p)
                    ==> self@.contact[p] == now_ms,
            decreases self.config.peers@.len() - i,
        {
            let peer = self.config.peers[i];
            proof {
                lemma_take_contains(before.peers, i as int);
            }
            if peer != self.config.node_id {
                self.peer_progress.insert(peer, fresh);
                self.last_voter_contact.insert(peer, now_ms);
            }
            i = i + 1;
        }
        assert(before.peers.take(i as int) =~= before.peers);
        assert(self@.contact =~= before.with_leader_progress(now_ms).contact);
        let mut j: usize = 0;
        while j < self.config.learners.len()
            invariant
                j <= self.config.learners@.len(),
                fresh == before.fresh_progress(),
                self@ == (NodeModel {
                    progress: self@.progress,
                    contact: before.with_leader_progress(now_ms).contact,
                    ..before
                }),
                forall|p: PeerId| #[trigger] self@.progress.dom().contains(p) <==> p
                    != before.node_id && (before.peers.contains(p) || before.learners.take(
                    j as int,
                ).contains(p)),
                forall|p: PeerId| #[trigger] self@.progress.dom().contains(p)
                    ==> self@.progress[p] == fresh,
            decreases self.config.learners@.len() - j,
        {
            let peer = self.config.learners[j];
            proof {
                lemma_take_contains(before.learners, j as int);
            }
            if peer != self.config.node_id {
                self.peer_progress.insert(peer, fresh);
            }
            j = j + 1;
        }
        assert(before.learners.take(j as int) =~= before.learners);
        assert(self@.progress =~= before.with_leader_progress(now_ms).progress);
    }

    /// Starts replication afresh unless it is under way.
    pub fn ensure_leader_progress_initialized(&mut self, now_ms: u64)
        ensures
            old(self)@.progress == Map::<PeerId, PeerProgress>::empty() ==> final(self)@
                == old(self)@.with_leader_progress(now_ms),
            old(self)@.progress != Map::<PeerId, PeerProgress>::empty() ==> final(self)@
                == old(self)@,
    {
        if self.peer_progress.is_empty() {
            self.initialize_leader_progress(now_ms);
        }
    }
}

/// One more element of a sequence is one more member.
pub proof fn lemma_take_contains(s: Seq<PeerId>, i: int)
    requires
        0 <= i < s.len(),
    ensures
        forall|p: PeerId| #[trigger] s.take(i + 1).contains(p) <==> s.take(i).contains(p) || p
            == s[i],
{
    assert forall|p: PeerId| #[trigger] s.take(i + 1).contains(p) <==> s.take(i).contains(p) || p
        == s[i] by {
        let more = s.take(i + 1);
        let less = s.take(i);
        if more.contains(p) {
            let x = choose|x: int| 0 <= x < more.len() && more[x] == p;
            if x < i {
                assert(less[x] == p);
            }
        }
        if less.contains(p) {
            let x = choose|x: int| 0 <= x < less.len() && less[x] == p;
            assert(more[x] == p);
        }
        if p == s[i] {
            assert(more[i] == p);
        }
    }
}

/// A node starts as a follower that knows no leader, with the term and the vote it had
/// stored, at the end of its stored log, and with nothing committed or applied yet. It
/// knows the term at the end of its snapshot, and it has no promise, transfer, or
/// membership change under way.
pub proof fn law_nodes_start_from_their_storage(
    config: NodeConfig,
    hard_state: HardState,
    last_log: (LogIndex, Term),
    snapshot: Option<SnapshotMeta>,
)
    ensures
        ({
            let m = started(config, hard_state, last_log, snapshot);
            &&& m.cluster_id == config.cluster_id && m.node_id == config.node_id
            &&& m.peers == config.peers@ && m.learners == config.learners@
            &&& m.bootstrap_peers == config.bootstrap_peers@
            &&& m.timing == config.timing && m.limits == config.limits
            &&& m.hard.current_term == hard_state.current_term
            &&& m.hard.voted_for == hard_state.voted_for
            &&& m.last_log == last_log
            &&& m.soft.role is Follower && !m.soft.is_leader && m.soft.leader_id is None
            &&& m.soft.commit_index.0 == 0 && m.last_applied.0 == 0
            &&& snapshot matches Some(meta) ==> {
                &&& m.boundary.0 == meta.last_included_index
                &&& m.boundary.1 == meta.last_included_term
            }
            &&& snapshot is None ==> m.boundary.0.0 == 0 && m.boundary.1.0 == 0
            &&& m.joint is None && m.transfer is None && m.forced is None
            &&& m.leader_contact is None
            &&& forall|p: PeerId| #![auto]
                !m.progress.dom().contains(p) && !m.contact.dom().contains(p)
                    && !m.pending.dom().contains(p) && !m.attempts.dom().contains(p)
            &&& forall|i: int| #[trigger] m.arena.lookup(i) is None
            &&& m.debt_entries == 0 && m.debt_bytes == 0
            &&& m.counters.elections_started == 0 && m.counters.elections_won == 0
            &&& m.counters.step_downs == 0 && m.counters.frames_dropped_nonfatal == 0
        }),
{
}

/// A request that only the leader serves is refused with a hint at the leader, as far as the
/// node knows one, and with no other.
pub proof fn law_refusals_name_the_leader(m: NodeModel, e: RaftError)
    requires
        m.is_not_leader_error(e),
    ensures
        e is NotLeader,
        e matches RaftError::NotLeader { leader_hint } ==> {
            &&& leader_hint is Some <==> m.soft.leader_id is Some
            &&& leader_hint matches Some(hint) ==> m.soft.leader_id == Some(hint.leader_id)
        },
{
}

/// A learner has caught up exactly if the leader knows it to have every committed entry.
/// Only the leader can tell, and only of a learner.
pub proof fn law_learners_catch_up_with_the_commits(
    m: NodeModel,
    peer: PeerId,
    r: Result<bool, RaftError>,
)
    requires
        learner_outcome(m, peer, r),
    ensures
        r is Ok <==> m.soft.role == Role::Leader && m.learners.contains(peer),
        r matches Ok(caught_up) ==> {
            &&& caught_up ==> m.progress.dom().contains(peer) && m.soft.commit_index.0
                <= m.progress[peer].match_index.0
            &&& !caught_up && m.progress.dom().contains(peer) ==> m.progress[peer].match_index.0
                < m.soft.commit_index.0
        },
        m.soft.role != Role::Leader ==> r->Err_0 is NotLeader,
        m.soft.role == Role::Leader && !m.learners.contains(peer) ==> r->Err_0
            == RaftError::PeerUnknown(peer),
{
}

} // verus!
