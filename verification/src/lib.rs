//! A Raft consensus engine, proved to keep what it promises.
//!
//! A [`RaftNode`] is a state machine: each call takes what arrived (a frame, a
//! vote, an expired timer, an answer to a command) with the storage and the time,
//! changes the node, and says what to send. The engine does no I/O of its own, so
//! the caller sends, waits and sleeps. [`RaftStorage`] and [`StateMachine`] are the
//! embedder's.
//!
//! * [`protocol`] holds the frames and the codec. Every inbound frame is checked
//!   for its length and shape; a malformed one is a [`RaftError`] of class
//!   [`ErrorClass::BadFrame`], never a panic.
//! * [`node`] holds elections, replication, membership changes, snapshots, reads
//!   and leadership transfer.
//! * [`dispatch`] holds application commands that are fanned out to peers.
//! * [`registry`] and [`transport`] run many groups over one transport.

pub mod config;
pub mod dispatch;
pub mod entry;
pub mod error;
pub mod node;
pub mod protocol;
pub mod registry;
pub mod state;
pub mod text;
pub mod time;
pub mod traits;
pub mod transport;
pub mod types;

pub use config::{BootstrapPeer, LimitsConfig, NodeConfig, TimingConfig};
pub use dispatch::{
    encode_dispatch_response, DispatchAckOptions, DispatchAckPolicy, DispatchBuilder,
    DispatchContextView, DispatchEnvelope, DispatchFailOptions, DispatchFailPolicy,
    DispatchFailure, DispatchHandle, DispatchNodeRole, DispatchOptions, DispatchPeerResult,
    DispatchPeerState, DispatchResponse, DispatchResponseKind, DispatchResponseRef,
    DispatchResponseView, DispatchResult, DispatchRoute, DispatchScope, DispatchSpec, DispatchTx,
    DispatchTxResponder, DispatchView, RAFT_DISPATCH_FRAME_HEADER_SIZE, RAFT_DISPATCH_MAGIC,
    RAFT_DISPATCH_RESPONSE_FRAME_HEADER_SIZE, RAFT_DISPATCH_RESPONSE_MAGIC,
    RAFT_DISPATCH_RESPONSE_VERSION, RAFT_DISPATCH_VERSION,
};
pub use entry::{EntryPayload, LogEntry};
pub use error::{ErrorClass, IoFault, IoFaultKind, RaftError};
pub use node::membership::{
    ConfigChangeEntry, ConfigChangePhase, CONFIG_CHANGE_MAGIC, CONFIG_CHANGE_VERSION,
};
pub use node::{
    validate_node_config, InboundAction, RaftMetrics, RaftMetricsSnapshot, RaftNode, RaftStatus,
};
pub use protocol::{
    decode_message, encode_append_entries_vectored, encode_message_to_bytes,
    encode_message_vectored, encode_message_vectored_with_group, AppendEntries, AppendEntriesResp,
    EntryHeader, InboundRaftMessage, InstallSnapshot, InstallSnapshotResp, RaftMessage,
    RequestVote, RequestVoteResp, TimeoutNow, KIND_APPEND_ENTRIES, KIND_APPEND_ENTRIES_RESP,
    KIND_CUSTOM, KIND_CUSTOM_RESPONSE, KIND_INSTALL_SNAPSHOT, KIND_INSTALL_SNAPSHOT_RESP,
    KIND_REQUEST_VOTE, KIND_REQUEST_VOTE_RESP, KIND_TIMEOUT_NOW, RAFT_FRAME_HEADER_SIZE,
    RAFT_MAGIC, RAFT_VERSION,
};
pub use registry::{GroupEntry, GroupTick, MultiRaftDriver, RaftGroupRegistry};
pub use state::{HardState, Role, SnapshotMeta, SoftState};
pub use traits::{RaftStorage, StateMachine};
pub use transport::{MultiplexDemux, MultiplexedTransport};
pub use types::{ClusterId, GroupId, LeaderHint, LogIndex, PeerId, Term};
