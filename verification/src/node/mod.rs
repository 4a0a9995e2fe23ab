//! One Raft node: its state and its decisions.

pub mod counter_laws;
pub mod dispatch;
pub mod election;
pub mod election_laws;
pub mod failure_laws;
pub mod generational;
pub mod inbound;
pub mod install_laws;
pub mod laws;
pub mod leader_balance;
pub mod log_compaction;
pub mod membership;
pub mod metrics;
pub mod progress;
pub mod quorum;
pub mod raft_node;
pub mod read_index;
pub mod replication;
pub mod snapshot;
pub mod snapshot_install;
pub mod snapshot_laws;
pub mod transfer;

pub use inbound::InboundAction;
pub use metrics::{RaftMetrics, RaftMetricsSnapshot};
pub use raft_node::{validate_node_config, RaftNode, RaftStatus};
