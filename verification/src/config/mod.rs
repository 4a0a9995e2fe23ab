//! Configuration.

mod limits;
mod node;
mod timing;

pub use limits::{default_limits, default_max_snapshot_bytes, LimitsConfig};
pub use node::{BootstrapPeer, NodeConfig};
pub use timing::TimingConfig;
