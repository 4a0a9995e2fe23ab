//! Log replication, on the follower and on the leader.

pub mod commit_laws;
pub mod gather;
pub mod handler;
pub mod heartbeat;
pub mod heartbeat_batch;
pub mod laws;
pub mod leader_laws;
pub mod propose;
pub mod response;
pub mod shared;
