use vstd::prelude::*;

use super::limits::{default_limits, LimitsConfig};
use super::timing::TimingConfig;
use crate::types::{ClusterId, PeerId};

verus! {

/// A seed address used for initial discovery only.
#[derive(Clone, Debug)]
pub struct BootstrapPeer {
    pub id: PeerId,
    /// `host:port`.
    pub addr: String,
}

#[derive(Clone, Debug)]
pub struct NodeConfig {
    pub cluster_id: ClusterId,
    pub node_id: PeerId,
    /// Voters known at startup.
    pub peers: Vec<PeerId>,
    /// Non-voting members known at startup. Learners receive the log but count
    /// in no quorum. Disjoint from `peers`.
    pub learners: Vec<PeerId>,
    pub bootstrap_peers: Vec<BootstrapPeer>,
    pub timing: TimingConfig,
    pub limits: LimitsConfig,
}

impl Default for NodeConfig {
    fn default() -> (r: Self)
        ensures
            r.cluster_id == ClusterId(0),
            r.node_id == PeerId(0),
            r.peers@.len() == 0,
            r.learners@.len() == 0,
            r.bootstrap_peers@.len() == 0,
            r.timing.heartbeat_ms == 50,
            r.timing.election_min_ms == 300,
            r.timing.election_max_ms == 600,
            r.limits == default_limits(),
    {
        NodeConfig {
            cluster_id: ClusterId(0),
            node_id: PeerId(0),
            peers: Vec::new(),
            learners: Vec::new(),
            bootstrap_peers: Vec::new(),
            timing: TimingConfig::default(),
            limits: LimitsConfig::default(),
        }
    }
}

} // verus!
