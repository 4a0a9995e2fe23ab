//! What the counters of a node count.

use vstd::prelude::*;

use super::election::{campaign_begun, leadership_claimed};
use super::membership::ConfigChange;
use super::metrics::RaftMetricsSnapshot;
use super::raft_node::{step_down_outcome, NodeModel};
use crate::error::RaftError;
use crate::protocol::codec::wire::RequestVote;
use crate::state::{Role, SnapshotMeta};
use crate::traits::{RaftStorage, StorageModel};
use crate::types::{PeerId, Term};

verus! {

/// Every election that a node starts counts once, and one that it may not start does not.
pub proof fn law_elections_are_counted<S: RaftStorage>(
    before: NodeModel,
    stored: StorageModel,
    r: Result<Option<RequestVote>, RaftError>,
    after: NodeModel,
    stored_after: StorageModel,
)
    requires
        campaign_begun::<S>(before, stored, r, after, stored_after),
        before.counters.elections_started < u64::MAX,
    ensures
        before.peers.contains(before.node_id) ==> after.counters == (RaftMetricsSnapshot {
            elections_started: (before.counters.elections_started + 1) as u64,
            ..before.counters
        }),
        !before.peers.contains(before.node_id) ==> after.counters == before.counters,
{
}

/// Every election that is won counts once, and a claim that comes too late does not.
pub proof fn law_victories_are_counted(
    before: NodeModel,
    term: Term,
    now_ms: u64,
    r: bool,
    after: NodeModel,
)
    requires
        leadership_claimed(before, term, now_ms, r, after),
        before.counters.elections_won < u64::MAX,
    ensures
        r ==> after.counters == (RaftMetricsSnapshot {
            elections_won: (before.counters.elections_won + 1) as u64,
            ..before.counters
        }),
        !r ==> after.counters == before.counters,
{
}

/// A node that gives up a candidacy or the lead counts that; a follower that learns of a
/// newer term gives up nothing.
pub proof fn law_step_downs_are_counted(
    before: NodeModel,
    stored: StorageModel,
    term: Term,
    after: NodeModel,
    stored_after: StorageModel,
)
    requires
        step_down_outcome(before, stored, term, Ok(()), after, stored_after),
        before.counters.step_downs < u64::MAX,
    ensures
        before.soft.role == Role::Follower ==> after.counters == before.counters,
        before.soft.role != Role::Follower ==> after.counters == (RaftMetricsSnapshot {
            step_downs: (before.counters.step_downs + 1) as u64,
            ..before.counters
        }),
{
}

/// Every membership change that is applied counts once, as does every compaction. An
/// install counts as refused exactly where it was not allowed, and a transfer as evicted
/// exactly where it is gone.
pub proof fn law_upkeep_is_counted(
    m: NodeModel,
    c: ConfigChange,
    meta: SnapshotMeta,
    peer: PeerId,
    now_ms: u64,
)
    requires
        m.counters.config_changes_applied < u64::MAX,
        m.counters.log_compactions < u64::MAX,
        m.counters.snapshot_installs_refused < u64::MAX,
        m.pending.dom().finite(),
        m.counters.snapshots_evicted + m.pending.dom().len() <= u64::MAX,
    ensures
        m.changed(c).counters == (RaftMetricsSnapshot {
            config_changes_applied: (m.counters.config_changes_applied + 1) as u64,
            ..m.counters
        }),
        m.compacted(meta).counters == (RaftMetricsSnapshot {
            log_compactions: (m.counters.log_compactions + 1) as u64,
            ..m.counters
        }),
        m.install_weighed(peer, now_ms).counters == (RaftMetricsSnapshot {
            snapshot_installs_refused: (m.counters.snapshot_installs_refused + if
                m.install_allowed(peer, now_ms) {
                0int
            } else {
                1int
            }) as u64,
            ..m.counters
        }),
        m.swept(now_ms).counters.snapshots_evicted + m.swept(now_ms).pending.dom().len()
            == m.counters.snapshots_evicted + m.pending.dom().len(),
        m.swept(now_ms).pending.dom().contains(peer) <==> m.pending.dom().contains(peer) && now_ms
            <= m.pending[peer].deadline_ms,
        m.swept(now_ms).pending.dom().contains(peer) ==> m.swept(now_ms).pending[peer]
            == m.pending[peer],
{
    let live = m.swept(now_ms).pending.dom();
    assert(live.subset_of(m.pending.dom()));
    vstd::set_lib::lemma_len_subset(live, m.pending.dom());
}

} // verus!
