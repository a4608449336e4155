//! Frames and the handlers that consume them.

use crate::endpoint::{EndpointHandle, MailboxView};
use crate::error::SessionError;
use vstd::pervasive::unreached;
use vstd::prelude::*;

verus! {

/// What became of a payload that was offered to a kind of frame.
pub enum FrameParsingResult<F> {
    /// The payload is a frame of this kind.
    Parsed(F),
    /// The frame type belongs to another kind; the payload comes back untouched.
    Skip(Vec<u8>),
    /// The frame type is of this kind and the payload is malformed.
    Failed(SessionError),
}

impl<F> FrameParsingResult<F> {
    /// The payload that a skipped parse handed back.
    pub fn unwrap_buf(self) -> (buf: Vec<u8>)
        requires
            self is Skip,
        ensures
            buf == self->Skip_0,
    {
        match self {
            FrameParsingResult::Skip(val) => val,
            _ => unreached(),
        }
    }
}

/// A kind of frame: one frame type, or a union of several.
///
/// The view of a frame is what it says; `payload_of` and `parse` relate
/// views to payload bytes, and the executable methods compute them.
pub trait Frame: View + Sized {
    /// Whether frames of type `frame_type` are of this kind.
    spec fn accepts(frame_type: u16) -> bool;

    /// Whether `v` can be put on the wire: its payload has a length that the
    /// header can declare.
    spec fn encodable(v: Self::V) -> bool;

    /// The frame type that `v` travels under.
    spec fn type_of(v: Self::V) -> u16;

    /// The payload bytes of `v`.
    spec fn payload_of(v: Self::V) -> Seq<u8>;

    /// The frame that `payload` denotes under `frame_type`, if it denotes one.
    spec fn parse(frame_type: u16, payload: Seq<u8>) -> Option<Self::V>;

    /// An encodable frame has an accepted type and a payload of at most
    /// 2^32 - 1 bytes, and parsing that payload gives the frame back.
    proof fn lemma_parse_payload(v: Self::V)
        requires
            Self::encodable(v),
        ensures
            Self::accepts(Self::type_of(v)),
            Self::payload_of(v).len() <= u32::MAX,
            Self::parse(Self::type_of(v), Self::payload_of(v)) == Some(v),
    ;

    /// What parses is encodable, and comes from an accepted type.
    proof fn lemma_parse_encodable(frame_type: u16, payload: Seq<u8>)
        requires
            Self::parse(frame_type, payload) is Some,
        ensures
            Self::accepts(frame_type),
            Self::encodable(Self::parse(frame_type, payload)->0),
            Self::type_of(Self::parse(frame_type, payload)->0) == frame_type,
    ;

    /// The frame types of this kind, each of them once or more.
    fn frame_types() -> (types: Vec<u16>)
        ensures
            forall|t: u16| types@.contains(t) <==> Self::accepts(t),
    ;

    /// The frame type that this frame travels under.
    fn frame_type(&self) -> (t: u16)
        ensures
            t == Self::type_of(self@),
            Self::encodable(self@),
    ;

    /// Parses the payload `buf` of a frame of type `frame_type`. A type of
    /// another kind is skipped and the payload handed back; a payload that
    /// denotes no frame is a parse error.
    fn try_parse(frame_type: u16, buf: Vec<u8>) -> (r: FrameParsingResult<Self>)
        ensures
            match r {
                FrameParsingResult::Parsed(frame) => Self::parse(frame_type, buf@) == Some(frame@),
                FrameParsingResult::Skip(back) => !Self::accepts(frame_type) && back == buf,
                FrameParsingResult::Failed(e) => Self::accepts(frame_type) && Self::parse(
                    frame_type,
                    buf@,
                ) is None && e == SessionError::Parse,
            },
    ;

    /// The payload bytes of this frame.
    fn to_bytes(self) -> (out: Vec<u8>)
        ensures
            out@ == Self::payload_of(self@),
            Self::encodable(self@),
    ;
}

/// The frame types of the kind `F`.
pub open spec fn declared<F: Frame>() -> Set<u16> {
    Set::new(|frame_type: u16| F::accepts(frame_type))
}

/// A handler: it consumes the frames of one kind, changes its own state,
/// enqueues its replies in the endpoint's mailbox, and answers with what is
/// left for the driver of the connection to do.
pub trait FrameHandler: Sized {
    /// The kind of frame that the handler consumes.
    type IncomingFrame: Frame;

    /// What the handler leaves for the driver to do.
    type Output;

    /// Whether a handler in state `pre` that is handed `frame`, with `mailbox`
    /// to reply into, ends in state `post` with the mailbox as `post_mailbox`
    /// and answers `answer`.
    spec fn handles(
        pre: Self,
        frame: <Self::IncomingFrame as View>::V,
        mailbox: MailboxView,
        post: Self,
        post_mailbox: MailboxView,
        answer: Result<Self::Output, SessionError>,
    ) -> bool;

    /// Takes `frame`, with `handle` to reply into.
    fn handle_frame(&mut self, frame: Self::IncomingFrame, handle: &mut EndpointHandle) -> (answer:
        Result<Self::Output, SessionError>)
        ensures
            Self::handles(*old(self), frame@, old(handle)@, *final(self), final(handle)@, answer),
    ;
}

} // verus!
