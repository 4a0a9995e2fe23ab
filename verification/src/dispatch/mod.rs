//! Application commands fanned out to the cluster, with acknowledgement and
//! failure policies.

pub mod builder;
pub mod context;
pub mod frame;
pub mod layout;
pub mod response;
pub mod spec;
pub mod tx;
pub mod tx_ids;
pub mod view;

pub use builder::{DispatchBuilder, DispatchEnvelope};
pub use context::{DispatchContextView, DispatchResponse, DispatchResponseKind};
pub use frame::{
    DispatchFrameHeader, DispatchResponseFrameHeader, RAFT_DISPATCH_FRAME_HEADER_SIZE,
    RAFT_DISPATCH_MAGIC, RAFT_DISPATCH_RESPONSE_FRAME_HEADER_SIZE, RAFT_DISPATCH_RESPONSE_MAGIC,
    RAFT_DISPATCH_RESPONSE_VERSION, RAFT_DISPATCH_VERSION,
};
pub use response::{encode_dispatch_response, DispatchResponseRef, DispatchResponseView};
pub use spec::{
    DispatchAckOptions, DispatchAckPolicy, DispatchFailOptions, DispatchFailPolicy,
    DispatchNodeRole, DispatchOptions, DispatchRoute, DispatchScope, DispatchSpec,
};
pub use tx::{
    DispatchCompletion, DispatchFailure, DispatchHandle, DispatchPeerResult, DispatchPeerState,
    DispatchResult, DispatchState, DispatchTx, DispatchTxResponder,
};
pub use tx_ids::{TxIds, TxSeeds};
pub use view::DispatchView;
