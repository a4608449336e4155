//! The frames of the protocol and the handlers that consume them.

pub mod file_transfer;
pub mod handshake;
pub mod session;
