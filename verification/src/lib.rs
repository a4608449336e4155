//! The protocol core of a peer-to-peer file drop: the wire codec, the frames,
//! the handlers as state machines and the endpoint that routes frames to them.
//!
//! Nothing here touches a socket or a file. A driver reads bytes off the
//! connection, hands them to the endpoint and its handlers, and carries out
//! what they answer: frames to transmit, bytes to store, a shutdown.

pub mod endpoint;
pub mod error;
pub mod handlers;
pub mod model;
pub mod proto;
pub mod wire;
