//! The end of a session.

use crate::endpoint::{EndpointHandle, MailboxView};
use crate::error::SessionError;
use crate::proto::{Frame, FrameHandler, FrameParsingResult};
use vstd::prelude::*;

verus! {

/// The frame type that ends a session.
pub const END_SESSION: u16 = 99;

/// Asks the peer to end the session. It says nothing more.
#[derive(Debug, PartialEq, Eq)]
pub struct EndSessionFrame;

impl View for EndSessionFrame {
    type V = ();

    open spec fn view(&self) -> () {
        ()
    }
}

impl Frame for EndSessionFrame {
    open spec fn accepts(frame_type: u16) -> bool {
        frame_type == END_SESSION
    }

    open spec fn encodable(v: ()) -> bool {
        true
    }

    open spec fn type_of(v: ()) -> u16 {
        END_SESSION
    }

    open spec fn payload_of(v: ()) -> Seq<u8> {
        Seq::empty()
    }

    /// Whatever the payload holds is ignored.
    open spec fn parse(frame_type: u16, payload: Seq<u8>) -> Option<()> {
        if frame_type == END_SESSION {
            Some(())
        } else {
            None
        }
    }

    proof fn lemma_parse_payload(v: ()) {
    }

    proof fn lemma_parse_encodable(frame_type: u16, payload: Seq<u8>) {
    }

    fn frame_types() -> (types: Vec<u16>) {
        let mut types: Vec<u16> = Vec::new();
        types.push(END_SESSION);
        assert(types@[0] == END_SESSION);
        types
    }

    fn frame_type(&self) -> (t: u16) {
        END_SESSION
    }

    fn try_parse(frame_type: u16, buf: Vec<u8>) -> (r: FrameParsingResult<Self>) {
        if frame_type != END_SESSION {
            return FrameParsingResult::Skip(buf);
        }
        FrameParsingResult::Parsed(EndSessionFrame)
    }

    fn to_bytes(self) -> (out: Vec<u8>) {
        Vec::new()
    }
}

/// Ends the session when the peer asks for it: it posts the shutdown signal.
pub struct EndSessionHandler;

impl EndSessionHandler {
    /// A handler for the end of one session.
    pub fn new() -> Self {
        EndSessionHandler
    }
}

impl FrameHandler for EndSessionHandler {
    type IncomingFrame = EndSessionFrame;

    type Output = ();

    open spec fn handles(
        pre: Self,
        frame: (),
        mailbox: MailboxView,
        post: Self,
        post_mailbox: MailboxView,
        answer: Result<(), SessionError>,
    ) -> bool {
        &&& post_mailbox == mailbox.request_shutdown()
        &&& answer == if mailbox.closed {
            Err::<(), SessionError>(SessionError::MailboxClosed)
        } else {
            Ok::<(), SessionError>(())
        }
    }

    /// Asks the endpoint to shut down.
    fn handle_frame(&mut self, _frame: EndSessionFrame, handle: &mut EndpointHandle) -> (answer:
        Result<(), SessionError>) {
        handle.shutdown()
    }
}

} // verus!
