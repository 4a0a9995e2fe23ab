//! Durable and volatile node state.

mod hard_state;

pub use hard_state::{HardState, Role, SnapshotMeta, SoftState};
