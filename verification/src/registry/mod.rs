//! Many groups on one core: their nodes, their timers, and the steps that drive
//! them.

pub mod apply;
pub mod driver;
pub mod groups;
pub mod hasher;
pub mod step;
pub mod timers;
pub mod turn;

pub use driver::{GroupTick, MultiRaftDriver};
pub use groups::{GroupEntry, RaftGroupRegistry};
