//! The handshake that opens a session.

use crate::endpoint::{EndpointHandle, MailboxView};
use crate::error::SessionError;
use crate::proto::{Frame, FrameHandler, FrameParsingResult};
use crate::wire::{frame_bytes, le_u32, lemma_le_u32_of_u32_le, put_u32, read_u32, u32_le};
use vstd::prelude::*;
use vstd::slice::slice_to_vec;
use vstd::string::StringSliceAdditionalSpecFns;
use vstd::utf8::{
    decode_utf8, decode_utf8_encode_utf8, encode_utf8, encode_utf8_decode_utf8,
    encode_utf8_valid_utf8, valid_utf8,
};

verus! {

/// The frame type of a handshake request.
pub const HANDSHAKE_REQUEST: u16 = 1;

/// The frame type of a handshake response.
pub const HANDSHAKE_RESPONSE: u16 = 2;

/// `String::from_utf8`: the string that holds `bytes`, where they are valid
/// UTF-8, and nothing where they are not.
#[verifier::external_body]
fn string_from_utf8(bytes: Vec<u8>) -> (text: Option<String>)
    ensures
        text is Some <==> valid_utf8(bytes@),
        text matches Some(s) ==> encode_utf8(s@) == bytes@,
{
    match String::from_utf8(bytes) {
        Ok(s) => Some(s),
        Err(_) => None,
    }
}

/// The client's opening frame: the name it goes by.
#[derive(Debug, PartialEq, Eq)]
pub struct HandshakeRequestFrame {
    name: String,
}

/// What a handshake request says.
pub struct HandshakeRequestView {
    pub name: Seq<char>,
}

impl View for HandshakeRequestFrame {
    type V = HandshakeRequestView;

    closed spec fn view(&self) -> HandshakeRequestView {
        HandshakeRequestView { name: self.name@ }
    }
}

impl HandshakeRequestFrame {
    /// The payload, four bytes of length and the name, fits a header's length
    /// field.
    #[verifier::type_invariant]
    spec fn inv(self) -> bool {
        encode_utf8(self.name@).len() + 4 <= u32::MAX
    }

    /// A request under `name`, unless the name is too long to be framed.
    pub fn new(name: String) -> (frame: Option<Self>)
        ensures
            frame is Some <==> encode_utf8(name@).len() + 4 <= u32::MAX,
            frame matches Some(f) ==> f@.name == name@,
    {
        if name.as_str().as_bytes().len() > u32::MAX as usize - 4 {
            None
        } else {
            Some(HandshakeRequestFrame { name })
        }
    }

    /// The name that the client goes by.
    pub fn name(&self) -> (name: &str)
        ensures
            name@ == self@.name,
    {
        self.name.as_str()
    }
}

impl Frame for HandshakeRequestFrame {
    open spec fn accepts(frame_type: u16) -> bool {
        frame_type == HANDSHAKE_REQUEST
    }

    /// The four bytes of length and the name in UTF-8 are no more than a
    /// header can declare.
    open spec fn encodable(v: HandshakeRequestView) -> bool {
        encode_utf8(v.name).len() + 4 <= u32::MAX
    }

    open spec fn type_of(v: HandshakeRequestView) -> u16 {
        HANDSHAKE_REQUEST
    }

    /// Four bytes: the length of the name in bytes, little-endian; then the
    /// name in UTF-8.
    open spec fn payload_of(v: HandshakeRequestView) -> Seq<u8> {
        u32_le(encode_utf8(v.name).len() as u32) + encode_utf8(v.name)
    }

    /// The length in the first four bytes, and the name: as many bytes as
    /// the length says, in UTF-8. What follows them is ignored; a payload
    /// that holds fewer, a name that is not UTF-8, and a payload longer than
    /// a header can declare are malformed.
    open spec fn parse(frame_type: u16, payload: Seq<u8>) -> Option<HandshakeRequestView> {
        if frame_type == HANDSHAKE_REQUEST && 4 <= payload.len() <= u32::MAX && 4 + le_u32(payload)
            <= payload.len() && valid_utf8(payload.subrange(4, 4 + le_u32(payload))) {
            Some(
                HandshakeRequestView {
                    name: decode_utf8(payload.subrange(4, 4 + le_u32(payload))),
                },
            )
        } else {
            None
        }
    }

    proof fn lemma_parse_payload(v: HandshakeRequestView) {
        let bytes = encode_utf8(v.name);
        let n = bytes.len() as u32;
        let p = Self::payload_of(v);
        lemma_le_u32_of_u32_le(n, bytes);
        assert(p.subrange(4, 4 + n) =~= bytes);
        encode_utf8_valid_utf8(v.name);
        encode_utf8_decode_utf8(v.name);
    }

    proof fn lemma_parse_encodable(frame_type: u16, payload: Seq<u8>) {
        decode_utf8_encode_utf8(payload.subrange(4, 4 + le_u32(payload)));
    }

    fn frame_types() -> (types: Vec<u16>) {
        let mut types: Vec<u16> = Vec::new();
        types.push(HANDSHAKE_REQUEST);
        assert(types@[0] == HANDSHAKE_REQUEST);
        types
    }

    fn frame_type(&self) -> (t: u16) {
        proof {
            use_type_invariant(self);
        }
        HANDSHAKE_REQUEST
    }

    fn try_parse(frame_type: u16, buf: Vec<u8>) -> (r: FrameParsingResult<Self>) {
        if frame_type != HANDSHAKE_REQUEST {
            return FrameParsingResult::Skip(buf);
        }
        if buf.len() < 4 || buf.len() > u32::MAX as usize {
            return FrameParsingResult::Failed(SessionError::Parse);
        }
        let size = read_u32(buf.as_slice()) as usize;
        if size > buf.len() - 4 {
            return FrameParsingResult::Failed(SessionError::Parse);
        }
        let bytes = slice_to_vec(&buf[4..4 + size]);
        match string_from_utf8(bytes) {
            Some(name) => {
                proof {
                    encode_utf8_decode_utf8(name@);
                }
                FrameParsingResult::Parsed(HandshakeRequestFrame { name })
            },
            None => FrameParsingResult::Failed(SessionError::Parse),
        }
    }

    fn to_bytes(self) -> (out: Vec<u8>) {
        proof {
            use_type_invariant(&self);
        }
        let name = self.name.as_str().as_bytes();
        let mut buf: Vec<u8> = Vec::with_capacity(4 + name.len());
        put_u32(&mut buf, name.len() as u32);
        buf.extend_from_slice(name);
        buf
    }
}

/// The server's answer to a handshake request. It says nothing more.
#[derive(Debug, PartialEq, Eq)]
pub struct HandshakeResponseFrame;

impl View for HandshakeResponseFrame {
    type V = ();

    open spec fn view(&self) -> () {
        ()
    }
}

impl Frame for HandshakeResponseFrame {
    open spec fn accepts(frame_type: u16) -> bool {
        frame_type == HANDSHAKE_RESPONSE
    }

    open spec fn encodable(v: ()) -> bool {
        true
    }

    open spec fn type_of(v: ()) -> u16 {
        HANDSHAKE_RESPONSE
    }

    open spec fn payload_of(v: ()) -> Seq<u8> {
        Seq::empty()
    }

    /// Whatever the payload holds is ignored.
    open spec fn parse(frame_type: u16, payload: Seq<u8>) -> Option<()> {
        if frame_type == HANDSHAKE_RESPONSE {
            Some(())
        } else {
            None
        }
    }

    proof fn lemma_parse_payload(v: ()) {
    }

    proof fn lemma_parse_encodable(frame_type: u16, payload: Seq<u8>) {
    }

    fn frame_types() -> (types: Vec<u16>) {
        let mut types: Vec<u16> = Vec::new();
        types.push(HANDSHAKE_RESPONSE);
        assert(types@[0] == HANDSHAKE_RESPONSE);
        types
    }

    fn frame_type(&self) -> (t: u16) {
        HANDSHAKE_RESPONSE
    }

    fn try_parse(frame_type: u16, buf: Vec<u8>) -> (r: FrameParsingResult<Self>) {
        if frame_type != HANDSHAKE_RESPONSE {
            return FrameParsingResult::Skip(buf);
        }
        FrameParsingResult::Parsed(HandshakeResponseFrame)
    }

    fn to_bytes(self) -> (out: Vec<u8>) {
        Vec::new()
    }
}

/// Answers a handshake request with a handshake response. The name that
/// the client gave is handed to the driver, which may log it; nothing of it
/// is kept.
pub struct HandshakeHandler;

impl HandshakeHandler {
    /// A handler for the handshake requests of one session.
    pub fn new() -> Self {
        HandshakeHandler
    }
}

impl FrameHandler for HandshakeHandler {
    type IncomingFrame = HandshakeRequestFrame;

    type Output = String;

    open spec fn handles(
        pre: Self,
        frame: HandshakeRequestView,
        mailbox: MailboxView,
        post: Self,
        post_mailbox: MailboxView,
        answer: Result<String, SessionError>,
    ) -> bool {
        &&& post_mailbox == mailbox.send(frame_bytes(HANDSHAKE_RESPONSE, Seq::empty()))
        &&& match answer {
            Ok(name) => !mailbox.closed && name@ == frame.name,
            Err(e) => mailbox.closed && e == SessionError::MailboxClosed,
        }
    }

    /// Enqueues the handshake response and hands out the client's name.
    fn handle_frame(&mut self, frame: HandshakeRequestFrame, handle: &mut EndpointHandle) -> (answer:
        Result<String, SessionError>) {
        match handle.send_frame(HandshakeResponseFrame) {
            Ok(()) => Ok(frame.name),
            Err(e) => Err(e),
        }
    }
}

} // verus!
