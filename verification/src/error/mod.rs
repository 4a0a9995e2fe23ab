//! What can go wrong, and how severe it is.

mod raft_error;

pub use raft_error::{ErrorClass, IoFault, IoFaultKind, RaftError};
