//! The wire codec.

pub mod buffer;
pub mod decode;
pub mod encode;
pub mod laws;
pub mod layout;
pub mod le;
pub mod view;
pub mod wire;
