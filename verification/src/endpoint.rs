//! The endpoint of one connection: framing, the mailbox of outbound frames,
//! and the routing of inbound frames to handlers.

use crate::error::SessionError;
use crate::handlers::file_transfer::{FILE_TRANSFER_ACK, FILE_TRANSFER_DATA};
use crate::handlers::handshake::{HANDSHAKE_REQUEST, HANDSHAKE_RESPONSE};
use crate::handlers::session::END_SESSION;
use crate::proto::{declared, Frame, FrameHandler, FrameParsingResult};
use crate::wire::{decode, decode_frame, encode_frame, frame_bytes, is_whole_frame, HEADER_LEN};
use std::collections::VecDeque;
use vstd::prelude::*;
use vstd::string::StringExecFns;

verus! {

/// A frame together with the header that it travels under.
pub struct FrameWithHeader<F: Frame> {
    pub frame: F,
}

impl<F: Frame> FrameWithHeader<F> {
    /// The frame's bytes on the wire.
    pub fn to_bytes(self) -> (out: Vec<u8>)
        ensures
            out@ == frame_bytes(F::type_of(self.frame@), F::payload_of(self.frame@)),
            is_whole_frame(out@),
            F::encodable(self.frame@),
    {
        let frame_type = self.frame.frame_type();
        proof {
            F::lemma_parse_payload(self.frame@);
        }
        let payload = self.frame.to_bytes();
        encode_frame(frame_type, payload)
    }
}

/// What a mailbox holds: the encoded frames that wait to be transmitted,
/// oldest first, whether a shutdown has been asked for, and whether the
/// endpoint has terminated.
pub struct MailboxView {
    pub outbound: Seq<Seq<u8>>,
    pub shutdown: bool,
    pub closed: bool,
}

impl MailboxView {
    /// A mailbox that is open and holds nothing.
    pub open spec fn empty() -> MailboxView {
        MailboxView { outbound: Seq::empty(), shutdown: false, closed: false }
    }

    /// What holds of every mailbox: each entry is one whole frame.
    pub open spec fn inv(self) -> bool {
        forall|i: int| 0 <= i < self.outbound.len() ==> is_whole_frame(#[trigger] self.outbound[i])
    }

    /// The mailbox after `bytes` were offered for transmission: enqueued
    /// behind what waits, or dropped if the endpoint has terminated.
    pub open spec fn send(self, bytes: Seq<u8>) -> MailboxView {
        if self.closed {
            self
        } else {
            MailboxView { outbound: self.outbound.push(bytes), ..self }
        }
    }

    /// The mailbox after a shutdown was asked for. The signal has room for one
    /// token: asking again while one is pending changes nothing.
    pub open spec fn request_shutdown(self) -> MailboxView {
        if self.closed {
            self
        } else {
            MailboxView { shutdown: true, ..self }
        }
    }
}

/// The handle of an endpoint: the mailbox through which handlers and outside
/// producers enqueue frames for transmission and ask for a shutdown. The
/// driver of the connection empties it.
pub struct EndpointHandle {
    outbound: VecDeque<Vec<u8>>,
    shutdown: bool,
    closed: bool,
}

impl View for EndpointHandle {
    type V = MailboxView;

    closed spec fn view(&self) -> MailboxView {
        MailboxView {
            outbound: self.outbound@.map_values(|frame: Vec<u8>| frame@),
            shutdown: self.shutdown,
            closed: self.closed,
        }
    }
}

/// Whether each of `frames` is one whole frame.
spec fn all_whole(frames: Seq<Vec<u8>>) -> bool {
    forall|i: int| 0 <= i < frames.len() ==> is_whole_frame(#[trigger] frames[i]@)
}

impl EndpointHandle {
    #[verifier::type_invariant]
    spec fn inv(self) -> bool {
        all_whole(self.outbound@)
    }

    /// The mailbox holds whole frames.
    proof fn lemma_inv(self)
        requires
            self.inv(),
        ensures
            self@.inv(),
    {
    }

    /// An open mailbox that holds nothing.
    pub fn new() -> (handle: Self)
        ensures
            handle@ == MailboxView::empty(),
            handle@.inv(),
    {
        let outbound: VecDeque<Vec<u8>> = VecDeque::new();
        assert(outbound@.map_values(|frame: Vec<u8>| frame@) =~= Seq::empty());
        EndpointHandle { outbound, shutdown: false, closed: false }
    }

    /// Encodes `frame` and enqueues it for transmission. On a terminated
    /// endpoint the frame is dropped and the caller is told.
    pub fn send_frame<F: Frame>(&mut self, frame: F) -> (r: Result<(), SessionError>)
        ensures
            F::encodable(frame@),
            final(self)@ == old(self)@.send(frame_bytes(F::type_of(frame@), F::payload_of(frame@))),
            final(self)@.inv(),
            r == if old(self)@.closed {
                Err::<(), SessionError>(SessionError::MailboxClosed)
            } else {
                Ok::<(), SessionError>(())
            },
    {
        proof {
            use_type_invariant(&*self);
            self.lemma_inv();
        }
        let frame_with_header = FrameWithHeader { frame };
        let buf = frame_with_header.to_bytes();
        if self.closed {
            return Err(SessionError::MailboxClosed);
        }
        let mut outbound: VecDeque<Vec<u8>> = VecDeque::new();
        core::mem::swap(&mut self.outbound, &mut outbound);
        outbound.push_back(buf);
        assert(outbound@.map_values(|frame: Vec<u8>| frame@) =~= old(self)@.outbound.push(buf@));
        assert(all_whole(outbound@)) by {
            assert forall|i: int| 0 <= i < outbound@.len() implies is_whole_frame(
                #[trigger] outbound@[i]@,
            ) by {
                if i < old(self).outbound@.len() {
                    assert(outbound@[i] == old(self).outbound@[i]);
                }
            }
        }
        self.outbound = outbound;
        proof {
            self.lemma_inv();
        }
        Ok(())
    }

    /// Asks the endpoint to shut down. A second request while one is pending
    /// is accepted and changes nothing; on a terminated endpoint the caller
    /// is told.
    pub fn shutdown(&mut self) -> (r: Result<(), SessionError>)
        ensures
            final(self)@ == old(self)@.request_shutdown(),
            r == if old(self)@.closed {
                Err::<(), SessionError>(SessionError::MailboxClosed)
            } else {
                Ok::<(), SessionError>(())
            },
    {
        proof {
            use_type_invariant(&*self);
        }
        if self.closed {
            return Err(SessionError::MailboxClosed);
        }
        self.shutdown = true;
        Ok(())
    }

    /// Whether a shutdown has been asked for.
    pub fn shutdown_requested(&self) -> (pending: bool)
        ensures
            pending == self@.shutdown,
    {
        self.shutdown
    }

    /// Whether the endpoint has terminated.
    pub fn is_closed(&self) -> (closed: bool)
        ensures
            closed == self@.closed,
    {
        self.closed
    }

    /// The number of frames that wait to be transmitted. Each of them is
    /// one whole frame.
    pub fn pending(&self) -> (n: usize)
        ensures
            n == self@.outbound.len(),
            self@.inv(),
    {
        proof {
            use_type_invariant(self);
            self.lemma_inv();
        }
        self.outbound.len()
    }

    /// Takes the oldest frame that waits to be transmitted, if there is one.
    /// What comes out is one whole frame.
    pub fn next_outbound(&mut self) -> (bytes: Option<Vec<u8>>)
        ensures
            match bytes {
                Some(b) => old(self)@.outbound.len() > 0 && b@ == old(self)@.outbound[0]
                    && is_whole_frame(b@) && final(self)@ == (MailboxView {
                    outbound: old(self)@.outbound.drop_first(),
                    ..old(self)@
                }),
                None => old(self)@.outbound.len() == 0 && final(self)@ == old(self)@,
            },
    {
        proof {
            use_type_invariant(&*self);
        }
        let mut outbound: VecDeque<Vec<u8>> = VecDeque::new();
        core::mem::swap(&mut self.outbound, &mut outbound);
        let front = outbound.pop_front();
        proof {
            let waiting = outbound@.map_values(|frame: Vec<u8>| frame@);
            if front is Some {
                assert(waiting =~= old(self)@.outbound.drop_first());
                assert(is_whole_frame(old(self).outbound@[0]@));
                assert forall|i: int| 0 <= i < outbound@.len() implies is_whole_frame(
                    #[trigger] outbound@[i]@,
                ) by {
                    assert(outbound@[i] == old(self).outbound@[i + 1]);
                }
            } else {
                assert(waiting =~= old(self)@.outbound);
            }
        }
        self.outbound = outbound;
        front
    }

    /// Marks the endpoint as terminated: what is offered from now on is
    /// refused. What already waits can still be taken.
    pub(crate) fn close(&mut self)
        ensures
            final(self)@ == (MailboxView { closed: true, ..old(self)@ }),
    {
        proof {
            use_type_invariant(&*self);
        }
        self.closed = true;
    }
}

/// Asking for a shutdown twice leaves the mailbox as asking once does.
pub proof fn lemma_shutdown_idempotent(mailbox: MailboxView)
    ensures
        mailbox.request_shutdown().request_shutdown() == mailbox.request_shutdown(),
        mailbox.shutdown ==> mailbox.request_shutdown() == mailbox,
{
}

/// The decimal digit of `d`.
pub open spec fn digit(d: int) -> char
    recommends
        0 <= d < 10,
{
    if d == 0 {
        '0'
    } else if d == 1 {
        '1'
    } else if d == 2 {
        '2'
    } else if d == 3 {
        '3'
    } else if d == 4 {
        '4'
    } else if d == 5 {
        '5'
    } else if d == 6 {
        '6'
    } else if d == 7 {
        '7'
    } else if d == 8 {
        '8'
    } else {
        '9'
    }
}

/// The decimal numeral of `n`.
pub open spec fn decimal(n: nat) -> Seq<char>
    decreases n,
{
    if n < 10 {
        seq![digit(n as int)]
    } else {
        decimal(n / 10).push(digit((n % 10) as int))
    }
}

/// The words in which an error is reported.
pub open spec fn message_of(error: SessionError) -> Seq<char> {
    match error {
        SessionError::PeerClosed => "Peer has closed unexpectedly"@,
        SessionError::Io => "Stream could not be read or written"@,
        SessionError::Parse => "Frame payload is malformed"@,
        SessionError::UnhandledFrameType(frame_type) => "No handlers can handle frame: "@ + decimal(
            frame_type as nat,
        ),
        SessionError::ProtocolViolation => "Frame is out of order"@,
        SessionError::MailboxClosed => "Endpoint has terminated"@,
    }
}

/// An error of an endpoint, in words.
#[derive(Debug)]
pub struct EndpointError {
    message: String,
}

impl View for EndpointError {
    type V = Seq<char>;

    closed spec fn view(&self) -> Seq<char> {
        self.message@
    }
}

impl EndpointError {
    /// The error that says `message`.
    pub fn new(message: &str) -> (error: Self)
        ensures
            error@ == message@,
    {
        Self { message: message.to_owned() }
    }

    /// The error that reports `error`.
    pub fn report(error: SessionError) -> (reported: Self)
        ensures
            reported@ == message_of(error),
    {
        match error {
            SessionError::PeerClosed => Self::new("Peer has closed unexpectedly"),
            SessionError::Io => Self::new("Stream could not be read or written"),
            SessionError::Parse => Self::new("Frame payload is malformed"),
            SessionError::UnhandledFrameType(frame_type) => {
                let mut message = String::from_str("No handlers can handle frame: ");
                let number = decimal_text(frame_type);
                message.append(number.as_str());
                Self { message }
            },
            SessionError::ProtocolViolation => Self::new("Frame is out of order"),
            SessionError::MailboxClosed => Self::new("Endpoint has terminated"),
        }
    }

    /// What the error says.
    pub fn message(&self) -> (message: &str)
        ensures
            message@ == self@,
    {
        self.message.as_str()
    }
}

/// The numeral of a decimal digit.
fn digit_text(d: u16) -> (text: &'static str)
    requires
        d < 10,
    ensures
        text@ == seq![digit(d as int)],
{
    proof {
        reveal_strlit("0");
        reveal_strlit("1");
        reveal_strlit("2");
        reveal_strlit("3");
        reveal_strlit("4");
        reveal_strlit("5");
        reveal_strlit("6");
        reveal_strlit("7");
        reveal_strlit("8");
        reveal_strlit("9");
    }
    let text = if d == 0 {
        "0"
    } else if d == 1 {
        "1"
    } else if d == 2 {
        "2"
    } else if d == 3 {
        "3"
    } else if d == 4 {
        "4"
    } else if d == 5 {
        "5"
    } else if d == 6 {
        "6"
    } else if d == 7 {
        "7"
    } else if d == 8 {
        "8"
    } else {
        "9"
    };
    assert(text@ =~= seq![digit(d as int)]);
    text
}

/// The decimal numeral of `n`.
fn decimal_text(n: u16) -> (text: String)
    ensures
        text@ == decimal(n as nat),
    decreases n,
{
    if n < 10 {
        String::from_str(digit_text(n))
    } else {
        let mut text = decimal_text(n / 10);
        text.append(digit_text(n % 10));
        assert(text@ =~= decimal((n / 10) as nat).push(digit((n % 10) as int)));
        text
    }
}

/// What became of a frame that was offered to a handler.
pub enum AnyFrameHandlerResult<O> {
    /// The handler took the frame; this is what it leaves for the driver.
    Handled(O),
    /// The frame is not of the handler's kind; the payload comes back.
    Skip(Vec<u8>),
    /// The payload was malformed, or the handler failed.
    Failed(SessionError),
}

/// A handler, offered frames of any type.
pub struct AnyFrameHandlerImpl<H: FrameHandler> {
    pub inner: H,
}

impl<H: FrameHandler> AnyFrameHandlerImpl<H> {
    /// Offers a frame to the handler. A frame of another kind is handed
    /// back and nothing changes; a malformed payload is a parse error and
    /// nothing changes; any other frame is parsed and handled.
    pub fn parse_and_handle_frame(
        &mut self,
        frame_type: u16,
        frame_payload: Vec<u8>,
        handle: &mut EndpointHandle,
    ) -> (r: AnyFrameHandlerResult<H::Output>)
        ensures
            match H::IncomingFrame::parse(frame_type, frame_payload@) {
                Some(frame) => match r {
                    AnyFrameHandlerResult::Handled(output) => H::handles(
                        old(self).inner,
                        frame,
                        old(handle)@,
                        final(self).inner,
                        final(handle)@,
                        Ok(output),
                    ),
                    AnyFrameHandlerResult::Failed(e) => H::handles(
                        old(self).inner,
                        frame,
                        old(handle)@,
                        final(self).inner,
                        final(handle)@,
                        Err(e),
                    ),
                    AnyFrameHandlerResult::Skip(_) => false,
                },
                None => {
                    &&& *final(self) == *old(self)
                    &&& final(handle)@ == old(handle)@
                    &&& match r {
                        AnyFrameHandlerResult::Skip(back) => !H::IncomingFrame::accepts(frame_type)
                            && back == frame_payload,
                        AnyFrameHandlerResult::Failed(e) => H::IncomingFrame::accepts(frame_type)
                            && e == SessionError::Parse,
                        AnyFrameHandlerResult::Handled(_) => false,
                    }
                },
            },
    {
        proof {
            if H::IncomingFrame::parse(frame_type, frame_payload@) is Some {
                H::IncomingFrame::lemma_parse_encodable(frame_type, frame_payload@);
            }
        }
        let parsing_result = H::IncomingFrame::try_parse(frame_type, frame_payload);
        match parsing_result {
            FrameParsingResult::Skip(payload) => AnyFrameHandlerResult::Skip(payload),
            FrameParsingResult::Failed(err) => AnyFrameHandlerResult::Failed(err),
            FrameParsingResult::Parsed(frame) => {
                match self.inner.handle_frame(frame, handle) {
                    Ok(output) => AnyFrameHandlerResult::Handled(output),
                    Err(err) => AnyFrameHandlerResult::Failed(err),
                }
            },
        }
    }
}

/// Where a session stands.
#[derive(Clone, Copy, Debug, PartialEq, Eq, Structural)]
pub enum SessionState {
    /// The endpoint does not run yet; handlers may still be registered.
    Fresh,
    /// The endpoint runs and waits for the handshake.
    Handshaking,
    /// The handshake is done; segments and acknowledgements flow.
    Transferring,
    /// The file has ended, or the end of the session was asked for.
    Ending,
    /// The endpoint has terminated.
    Closed,
}

/// Whether `frame_type` is one of the two handshake types.
pub open spec fn is_handshake(frame_type: u16) -> bool {
    frame_type == HANDSHAKE_REQUEST || frame_type == HANDSHAKE_RESPONSE
}

/// Whether `frame_type` is one of the two file-transfer types.
pub open spec fn is_transfer(frame_type: u16) -> bool {
    frame_type == FILE_TRANSFER_DATA || frame_type == FILE_TRANSFER_ACK
}

impl SessionState {
    /// Whether a frame of type `frame_type` is out of order in this state:
    /// file transfer before the handshake, or a second handshake.
    pub open spec fn violated_by(self, frame_type: u16) -> bool {
        match self {
            SessionState::Fresh | SessionState::Handshaking => is_transfer(frame_type),
            SessionState::Transferring | SessionState::Ending => is_handshake(frame_type),
            SessionState::Closed => false,
        }
    }

    /// The state after a frame of type `frame_type` that is in order.
    pub open spec fn after_frame(self, frame_type: u16) -> SessionState {
        match self {
            SessionState::Fresh | SessionState::Handshaking => if is_handshake(frame_type) {
                SessionState::Transferring
            } else if frame_type == END_SESSION {
                SessionState::Ending
            } else {
                SessionState::Handshaking
            },
            SessionState::Transferring => if frame_type == END_SESSION {
                SessionState::Ending
            } else {
                SessionState::Transferring
            },
            SessionState::Ending => SessionState::Ending,
            SessionState::Closed => SessionState::Closed,
        }
    }

    /// The state after the file has ended.
    pub open spec fn after_end_of_file(self) -> SessionState {
        match self {
            SessionState::Closed => SessionState::Closed,
            _ => SessionState::Ending,
        }
    }

    /// The place of the state in the course of a session.
    pub open spec fn rank(self) -> nat {
        match self {
            SessionState::Fresh => 0,
            SessionState::Handshaking => 1,
            SessionState::Transferring => 2,
            SessionState::Ending => 3,
            SessionState::Closed => 4,
        }
    }
}

/// A session never goes back: whatever happens to an endpoint leaves the
/// session where it stood or further on.
pub proof fn lemma_session_moves_forward(endpoint: EndpointView, frame_type: u16)
    ensures
        endpoint.state().rank() <= endpoint.state().after_frame(frame_type).rank(),
        endpoint.state().rank() <= endpoint.state().after_end_of_file().rank(),
        endpoint.state().rank() <= endpoint.started().state().rank(),
        endpoint.state().rank() <= endpoint.closed().state().rank(),
        endpoint.closed().state() is Closed,
{
}

/// Whether handler `i` of `handlers` is the first that declares
/// `frame_type`.
pub open spec fn is_first_handler(handlers: Seq<Set<u16>>, frame_type: u16, i: int) -> bool {
    &&& 0 <= i < handlers.len()
    &&& handlers[i].contains(frame_type)
    &&& forall|j: int| 0 <= j < i ==> !(#[trigger] handlers[j]).contains(frame_type)
}

/// Whether no handler of `handlers` declares `frame_type`.
pub open spec fn is_unhandled(handlers: Seq<Set<u16>>, frame_type: u16) -> bool {
    forall|j: int| 0 <= j < handlers.len() ==> !(#[trigger] handlers[j]).contains(frame_type)
}

/// What an endpoint is: the frame types that each registered handler
/// declares, in the order of registration; where the session stands, as long
/// as the endpoint has not terminated; and the mailbox.
pub struct EndpointView {
    pub handlers: Seq<Set<u16>>,
    pub phase: SessionState,
    pub mailbox: MailboxView,
}

impl EndpointView {
    /// Where the session stands.
    pub open spec fn state(self) -> SessionState {
        if self.mailbox.closed {
            SessionState::Closed
        } else {
            self.phase
        }
    }

    /// The endpoint after it has terminated.
    pub open spec fn closed(self) -> EndpointView {
        EndpointView { mailbox: MailboxView { closed: true, ..self.mailbox }, ..self }
    }

    /// The endpoint after its loop has started: a fresh session now waits
    /// for the handshake.
    pub open spec fn started(self) -> EndpointView {
        EndpointView {
            phase: if self.phase is Fresh {
                SessionState::Handshaking
            } else {
                self.phase
            },
            ..self
        }
    }
}

/// An inbound frame on its way to a handler.
pub struct Incoming {
    /// The place of the handler that is to take the frame.
    pub handler: usize,
    /// The type of the frame.
    pub frame_type: u16,
    /// The payload of the frame.
    pub payload: Vec<u8>,
    /// The number of bytes that the frame took up on the stream.
    pub consumed: usize,
}

/// What the driver of an endpoint is to do next.
pub enum Turn {
    /// Write these bytes, one whole frame, to the stream.
    Transmit(Vec<u8>),
    /// Wait for bytes from the stream, or for the mailbox to fill.
    Receive,
    /// Close the stream: the session has ended.
    Stop,
}

/// The endpoint of one connection. It knows which frame types each handler
/// declares and routes every inbound frame to the first handler that
/// declares its type; it follows the session through its states; and it
/// holds the mailbox of outbound frames and of the shutdown signal.
///
/// The handlers themselves, with the files that they read and write, stay
/// with the driver, in the order in which they were registered here.
pub struct Endpoint {
    handlers: Vec<Vec<u16>>,
    phase: SessionState,
    handle: EndpointHandle,
}

impl View for Endpoint {
    type V = EndpointView;

    closed spec fn view(&self) -> EndpointView {
        EndpointView {
            handlers: self.handlers@.map_values(|types: Vec<u16>| types@.to_set()),
            phase: self.phase,
            mailbox: self.handle@,
        }
    }
}

impl Endpoint {
    /// An endpoint with no handlers, a fresh session and an empty mailbox.
    pub fn new() -> (endpoint: Self)
        ensures
            endpoint@ == (EndpointView {
                handlers: Seq::empty(),
                phase: SessionState::Fresh,
                mailbox: MailboxView::empty(),
            }),
    {
        let endpoint = Endpoint {
            handlers: Vec::new(),
            phase: SessionState::Fresh,
            handle: EndpointHandle::new(),
        };
        assert(endpoint@.handlers =~= Seq::empty());
        endpoint
    }

    /// Registers a handler of type `H` behind those registered so far, and
    /// says at which place it stands. Handlers are registered before the
    /// endpoint runs.
    pub fn add_handler<H: FrameHandler>(&mut self) -> (index: usize)
        requires
            old(self)@.state() is Fresh,
        ensures
            index == old(self)@.handlers.len(),
            final(self)@ == (EndpointView {
                handlers: old(self)@.handlers.push(declared::<H::IncomingFrame>()),
                ..old(self)@
            }),
    {
        let index = self.handlers.len();
        let types = H::IncomingFrame::frame_types();
        assert(types@.to_set() =~= declared::<H::IncomingFrame>());
        self.handlers.push(types);
        assert(self@.handlers =~= old(self)@.handlers.push(types@.to_set()));
        index
    }

    /// The mailbox, for handlers to reply into and for the driver to empty.
    pub fn handle(&mut self) -> (handle: &mut EndpointHandle)
        ensures
            handle@ == old(self)@.mailbox,
            final(self)@ == (EndpointView { mailbox: final(handle)@, ..old(self)@ }),
    {
        &mut self.handle
    }

    /// Where the session stands.
    pub fn state(&self) -> (state: SessionState)
        ensures
            state == self@.state(),
    {
        if self.handle.is_closed() {
            SessionState::Closed
        } else {
            self.phase
        }
    }

    /// Routes an inbound frame of type `frame_type`: says which handler is
    /// to take it, the first that declares the type, and moves the session on.
    ///
    /// Where no handler declares the type, or the frame is out of order, the
    /// endpoint terminates with that error. A terminated endpoint routes
    /// nothing.
    pub fn dispatch(&mut self, frame_type: u16) -> (r: Result<usize, SessionError>)
        ensures
            final(self)@.handlers == old(self)@.handlers,
            match r {
                Ok(index) => {
                    &&& !(old(self)@.state() is Closed)
                    &&& is_first_handler(old(self)@.handlers, frame_type, index as int)
                    &&& !old(self)@.state().violated_by(frame_type)
                    &&& final(self)@ == (EndpointView {
                        phase: old(self)@.state().after_frame(frame_type),
                        ..old(self)@
                    })
                },
                Err(e) => {
                    &&& final(self)@ == old(self)@.closed()
                    &&& e == if old(self)@.state() is Closed {
                        SessionError::MailboxClosed
                    } else if is_unhandled(old(self)@.handlers, frame_type) {
                        SessionError::UnhandledFrameType(frame_type)
                    } else {
                        SessionError::ProtocolViolation
                    }
                    &&& old(self)@.state() is Closed || is_unhandled(old(self)@.handlers, frame_type)
                        || old(self)@.state().violated_by(frame_type)
                },
            },
    {
        if self.handle.is_closed() || self.phase == SessionState::Closed {
            self.handle.close();
            return Err(SessionError::MailboxClosed);
        }
        let mut found: Option<usize> = None;
        let mut i: usize = 0;
        while i < self.handlers.len() && found.is_none()
            invariant
                *self == *old(self),
                i <= self.handlers.len(),
                found is None ==> forall|j: int|
                    0 <= j < i ==> !(#[trigger] self@.handlers[j]).contains(frame_type),
                found matches Some(index) ==> is_first_handler(
                    self@.handlers,
                    frame_type,
                    index as int,
                ),
            decreases self.handlers.len() - i + if found is None { 1int } else { 0int },
        {
            assert(self@.handlers[i as int] == self.handlers@[i as int]@.to_set());
            if declares(&self.handlers[i], frame_type) {
                found = Some(i);
            } else {
                i = i + 1;
            }
        }
        let index = match found {
            Some(index) => index,
            None => {
                assert(self@.handlers.len() == self.handlers@.len());
                assert(is_unhandled(self@.handlers, frame_type));
                self.handle.close();
                return Err(SessionError::UnhandledFrameType(frame_type));
            },
        };
        assert(!is_unhandled(self@.handlers, frame_type)) by {
            assert(self@.handlers[index as int].contains(frame_type));
        }
        let handshake = frame_type == HANDSHAKE_REQUEST || frame_type == HANDSHAKE_RESPONSE;
        let transfer = frame_type == FILE_TRANSFER_DATA || frame_type == FILE_TRANSFER_ACK;
        let next = match self.phase {
            SessionState::Fresh | SessionState::Handshaking => {
                if transfer {
                    None
                } else if handshake {
                    Some(SessionState::Transferring)
                } else if frame_type == END_SESSION {
                    Some(SessionState::Ending)
                } else {
                    Some(SessionState::Handshaking)
                }
            },
            SessionState::Transferring => {
                if handshake {
                    None
                } else if frame_type == END_SESSION {
                    Some(SessionState::Ending)
                } else {
                    Some(SessionState::Transferring)
                }
            },
            SessionState::Ending => {
                if handshake {
                    None
                } else {
                    Some(SessionState::Ending)
                }
            },
            SessionState::Closed => Some(SessionState::Closed),
        };
        match next {
            Some(phase) => {
                self.phase = phase;
                Ok(index)
            },
            None => {
                self.handle.close();
                Err(SessionError::ProtocolViolation)
            },
        }
    }

    /// Tells the endpoint that the file has ended: on the sending side the
    /// last chunk was read, on the receiving side the empty segment came in.
    pub fn end_of_file(&mut self)
        ensures
            final(self)@ == (EndpointView {
                phase: old(self)@.phase.after_end_of_file(),
                ..old(self)@
            }),
    {
        self.phase = match self.phase {
            SessionState::Closed => SessionState::Closed,
            _ => SessionState::Ending,
        };
    }

    /// Takes the next inbound frame off `received`, the bytes that have come
    /// in and were not taken yet, and routes it as [`dispatch`](Self::dispatch)
    /// does. `at_end` says that the stream has ended and no more bytes will
    /// come.
    ///
    /// Where `received` does not hold a whole frame yet, there is nothing to
    /// route, unless the stream has ended: then the peer has closed inside a
    /// frame, or without ending the session, and the endpoint terminates.
    pub fn handle_incoming_frames(&mut self, received: &[u8], at_end: bool) -> (r: Result<
        Option<Incoming>,
        SessionError,
    >)
        ensures
            final(self)@.handlers == old(self)@.handlers,
            match r {
                Ok(None) => {
                    &&& !(old(self)@.state() is Closed)
                    &&& decode(received@) is None
                    &&& !at_end
                    &&& final(self)@ == old(self)@
                },
                Ok(Some(incoming)) => {
                    &&& !(old(self)@.state() is Closed)
                    &&& decode(received@) == Some((incoming.frame_type, incoming.payload@))
                    &&& incoming.consumed == HEADER_LEN + incoming.payload@.len()
                    &&& incoming.consumed <= received@.len()
                    &&& is_first_handler(
                        old(self)@.handlers,
                        incoming.frame_type,
                        incoming.handler as int,
                    )
                    &&& !old(self)@.state().violated_by(incoming.frame_type)
                    &&& final(self)@ == (EndpointView {
                        phase: old(self)@.state().after_frame(incoming.frame_type),
                        ..old(self)@
                    })
                },
                Err(e) => {
                    &&& final(self)@ == old(self)@.closed()
                    &&& e == if old(self)@.state() is Closed {
                        SessionError::MailboxClosed
                    } else {
                        match decode(received@) {
                            None => SessionError::PeerClosed,
                            Some((frame_type, _)) => if is_unhandled(
                                old(self)@.handlers,
                                frame_type,
                            ) {
                                SessionError::UnhandledFrameType(frame_type)
                            } else {
                                SessionError::ProtocolViolation
                            },
                        }
                    }
                    &&& old(self)@.state() is Closed || match decode(received@) {
                        None => at_end,
                        Some((frame_type, _)) => is_unhandled(old(self)@.handlers, frame_type)
                            || old(self)@.state().violated_by(frame_type),
                    }
                },
            },
    {
        if self.handle.is_closed() || self.phase == SessionState::Closed {
            self.handle.close();
            return Err(SessionError::MailboxClosed);
        }
        let available = received.len();
        match decode_frame(received) {
            Err(err) => {
                if at_end {
                    self.handle.close();
                    Err(err)
                } else {
                    Ok(None)
                }
            },
            Ok((frame_type, payload)) => {
                assert(HEADER_LEN + payload@.len() <= available);
                let consumed = HEADER_LEN + payload.len();
                match self.dispatch(frame_type) {
                    Ok(handler) => Ok(Some(Incoming { handler, frame_type, payload, consumed })),
                    Err(err) => Err(err),
                }
            },
        }
    }

    /// One turn of the endpoint's loop: says what the driver is to do next.
    /// With the first turn the session starts, and no handler can be
    /// registered any more.
    ///
    /// Frames that wait in the mailbox go out first, oldest first. With the
    /// mailbox empty, a shutdown that was asked for ends the session in
    /// order and the endpoint terminates. Otherwise the driver is to wait
    /// for inbound bytes, or for the mailbox to fill. A terminated endpoint
    /// has nothing left to do.
    pub fn run(&mut self) -> (turn: Turn)
        ensures
            match turn {
                Turn::Transmit(bytes) => {
                    &&& !(old(self)@.state() is Closed)
                    &&& old(self)@.mailbox.outbound.len() > 0
                    &&& bytes@ == old(self)@.mailbox.outbound[0]
                    &&& is_whole_frame(bytes@)
                    &&& final(self)@ == (EndpointView {
                        mailbox: MailboxView {
                            outbound: old(self)@.mailbox.outbound.drop_first(),
                            ..old(self)@.mailbox
                        },
                        ..old(self)@.started()
                    })
                },
                Turn::Receive => {
                    &&& !(old(self)@.state() is Closed)
                    &&& old(self)@.mailbox.outbound.len() == 0
                    &&& !old(self)@.mailbox.shutdown
                    &&& final(self)@ == old(self)@.started()
                },
                Turn::Stop => {
                    &&& old(self)@.state() is Closed || (old(self)@.mailbox.outbound.len() == 0
                        && old(self)@.mailbox.shutdown)
                    &&& final(self)@ == if old(self)@.state() is Closed {
                        old(self)@.closed()
                    } else {
                        old(self)@.started().closed()
                    }
                },
            },
    {
        if self.handle.is_closed() || self.phase == SessionState::Closed {
            self.handle.close();
            return Turn::Stop;
        }
        if self.phase == SessionState::Fresh {
            self.phase = SessionState::Handshaking;
        }
        match self.handle.next_outbound() {
            Some(bytes) => Turn::Transmit(bytes),
            None => {
                if self.handle.shutdown_requested() {
                    self.handle.close();
                    Turn::Stop
                } else {
                    Turn::Receive
                }
            },
        }
    }

    /// Terminates the endpoint: an error has ended the session.
    pub fn close(&mut self)
        ensures
            final(self)@ == old(self)@.closed(),
    {
        self.handle.close();
    }
}

/// Whether `types` holds `frame_type`.
fn declares(types: &Vec<u16>, frame_type: u16) -> (found: bool)
    ensures
        found == types@.contains(frame_type),
{
    let mut i: usize = 0;
    while i < types.len()
        invariant
            i <= types.len(),
            forall|j: int| 0 <= j < i ==> types@[j] != frame_type,
        decreases types.len() - i,
    {
        if types[i] == frame_type {
            return true;
        }
        i = i + 1;
    }
    false
}

} // verus!
