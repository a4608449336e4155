//! What ends a session.

use vstd::prelude::*;

verus! {

/// Why a session ended, or why a call on an endpoint was refused.
#[derive(Clone, Copy, Debug, PartialEq, Eq, Structural)]
pub enum SessionError {
    /// The stream ended inside a header or a payload.
    PeerClosed,
    /// Reading or writing the stream failed.
    Io,
    /// A payload does not have the layout of its frame type.
    Parse,
    /// No registered handler takes frames of this type.
    UnhandledFrameType(u16),
    /// The peer, or the driver, stepped outside the protocol.
    ProtocolViolation,
    /// The endpoint has terminated and takes no more frames or signals.
    MailboxClosed,
}

} // verus!
