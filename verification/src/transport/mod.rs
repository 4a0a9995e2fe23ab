//! Carrying many groups over one transport.

pub mod multiplex;

pub use multiplex::{MultiplexDemux, MultiplexedTransport};
