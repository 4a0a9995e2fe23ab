//! A command in flight: what each target answered, and how it came out.

pub mod handle;
pub mod laws;
pub mod state;
pub mod types;

pub use handle::{DispatchHandle, DispatchTx, DispatchTxResponder};
pub use state::{DispatchCompletion, DispatchState};
pub use types::{DispatchFailure, DispatchPeerResult, DispatchPeerState, DispatchResult};
