//! File transfer: data segments one way, acknowledgements the other.

use super::handshake::HandshakeResponseFrame;
use super::session::EndSessionFrame;
use crate::endpoint::{EndpointHandle, MailboxView};
use crate::error::SessionError;
use crate::proto::{Frame, FrameHandler, FrameParsingResult};
use crate::wire::{frame_bytes, le_u32, lemma_le_u32_of_u32_le, put_u32, read_u32, u32_le};
use vstd::prelude::*;

verus! {

/// The frame type of an acknowledgement.
pub const FILE_TRANSFER_ACK: u16 = 4;

/// The frame type of a data segment.
pub const FILE_TRANSFER_DATA: u16 = 3;

/// The most bytes that one segment carries: 512 KiB.
pub const CHUNK_SIZE: usize = 524288;

/// The credit, in segments, that the handshake response grants.
pub const INITIAL_WINDOW: u32 = 8;

/// The credit, in segments, that each acknowledgement adds.
pub const WINDOW_INCREMENT: u32 = 8;

/// The most credit, in segments, that the sender ever holds.
pub const MAX_WINDOW: u32 = 64;

/// The number of received segments that one acknowledgement answers.
pub const ACK_INTERVAL: u32 = 8;

/// An acknowledgement: the index of the segment that the receiver expects next.
#[derive(Debug, PartialEq, Eq)]
pub struct FileTransferAckFrame {
    segment_idx: u32,
}

/// What an acknowledgement says.
pub struct AckView {
    pub segment_idx: u32,
}

impl View for FileTransferAckFrame {
    type V = AckView;

    closed spec fn view(&self) -> AckView {
        AckView { segment_idx: self.segment_idx }
    }
}

impl FileTransferAckFrame {
    /// The acknowledgement that expects segment `segment_idx` next.
    pub fn new(segment_idx: u32) -> (frame: Self)
        ensures
            frame@.segment_idx == segment_idx,
    {
        FileTransferAckFrame { segment_idx }
    }

    /// The index of the segment that the receiver expects next.
    pub fn segment_idx(&self) -> (idx: u32)
        ensures
            idx == self@.segment_idx,
    {
        self.segment_idx
    }
}

impl Frame for FileTransferAckFrame {
    open spec fn accepts(frame_type: u16) -> bool {
        frame_type == FILE_TRANSFER_ACK
    }

    open spec fn encodable(v: AckView) -> bool {
        true
    }

    open spec fn type_of(v: AckView) -> u16 {
        FILE_TRANSFER_ACK
    }

    /// Four bytes: the index, little-endian.
    open spec fn payload_of(v: AckView) -> Seq<u8> {
        u32_le(v.segment_idx)
    }

    /// The index in the first four bytes. What follows them is ignored; a
    /// payload of fewer bytes, or of more than a header can declare, is
    /// malformed.
    open spec fn parse(frame_type: u16, payload: Seq<u8>) -> Option<AckView> {
        if frame_type == FILE_TRANSFER_ACK && 4 <= payload.len() <= u32::MAX {
            Some(AckView { segment_idx: le_u32(payload) as u32 })
        } else {
            None
        }
    }

    proof fn lemma_parse_payload(v: AckView) {
        lemma_le_u32_of_u32_le(v.segment_idx, Seq::empty());
        assert(u32_le(v.segment_idx) + Seq::<u8>::empty() =~= u32_le(v.segment_idx));
    }

    proof fn lemma_parse_encodable(frame_type: u16, payload: Seq<u8>) {
    }

    fn frame_types() -> (types: Vec<u16>) {
        let mut types: Vec<u16> = Vec::new();
        types.push(FILE_TRANSFER_ACK);
        assert(types@[0] == FILE_TRANSFER_ACK);
        types
    }

    fn frame_type(&self) -> (t: u16) {
        FILE_TRANSFER_ACK
    }

    fn try_parse(frame_type: u16, buf: Vec<u8>) -> (r: FrameParsingResult<Self>) {
        if frame_type != FILE_TRANSFER_ACK {
            return FrameParsingResult::Skip(buf);
        }
        if buf.len() < 4 || buf.len() > u32::MAX as usize {
            return FrameParsingResult::Failed(SessionError::Parse);
        }
        let segment_idx = read_u32(buf.as_slice());
        FrameParsingResult::Parsed(FileTransferAckFrame { segment_idx })
    }

    fn to_bytes(self) -> (out: Vec<u8>) {
        let mut buf: Vec<u8> = Vec::with_capacity(4);
        put_u32(&mut buf, self.segment_idx);
        buf
    }
}

/// A segment of the file. An empty segment says that the file has ended.
#[derive(Debug, PartialEq, Eq)]
pub struct FileTransferDataFrame {
    segment_idx: u32,
    chunk_size: u32,
    data: Vec<u8>,
}

/// What a data segment says: its index and its bytes.
pub struct DataView {
    pub segment_idx: u32,
    pub data: Seq<u8>,
}

impl View for FileTransferDataFrame {
    type V = DataView;

    closed spec fn view(&self) -> DataView {
        DataView { segment_idx: self.segment_idx, data: self.data@ }
    }
}

impl FileTransferDataFrame {
    /// The declared size is the number of bytes held, and the payload fits a
    /// header's length field.
    #[verifier::type_invariant]
    spec fn inv(self) -> bool {
        &&& self.chunk_size == self.data@.len()
        &&& self.data@.len() + 8 <= u32::MAX
    }

    /// The index of the segment.
    pub fn segment_idx(&self) -> (idx: u32)
        ensures
            idx == self@.segment_idx,
    {
        self.segment_idx
    }

    /// The number of bytes that the segment carries.
    pub fn chunk_size(&self) -> (n: u32)
        ensures
            n == self@.data.len(),
    {
        proof {
            use_type_invariant(self);
        }
        self.chunk_size
    }

    /// The bytes that the segment carries.
    pub fn data(&self) -> (data: &Vec<u8>)
        ensures
            data@ == self@.data,
    {
        &self.data
    }

    /// The segment numbered `segment_idx` that carries `chunk`.
    pub fn new(segment_idx: u32, chunk: Chunk) -> (frame: Self)
        ensures
            frame@ == (DataView { segment_idx, data: chunk@ }),
    {
        proof {
            use_type_invariant(&chunk);
        }
        let data = chunk.data;
        FileTransferDataFrame { segment_idx, chunk_size: data.len() as u32, data }
    }
}

impl Frame for FileTransferDataFrame {
    open spec fn accepts(frame_type: u16) -> bool {
        frame_type == FILE_TRANSFER_DATA
    }

    /// The eight bytes of index and size and the bytes carried are no more
    /// than a header can declare.
    open spec fn encodable(v: DataView) -> bool {
        v.data.len() + 8 <= u32::MAX
    }

    open spec fn type_of(v: DataView) -> u16 {
        FILE_TRANSFER_DATA
    }

    /// Four bytes of index, four bytes of size, both little-endian, and the
    /// bytes carried.
    open spec fn payload_of(v: DataView) -> Seq<u8> {
        u32_le(v.segment_idx) + u32_le(v.data.len() as u32) + v.data
    }

    /// The index in the first four bytes, the size in the next four, and the
    /// bytes carried: as many as the size says. What follows them is
    /// ignored; a payload that holds fewer, or that is longer than a header
    /// can declare, is malformed.
    open spec fn parse(frame_type: u16, payload: Seq<u8>) -> Option<DataView> {
        if frame_type == FILE_TRANSFER_DATA && 8 <= payload.len() <= u32::MAX && 8 + le_u32(
            payload.subrange(4, 8),
        ) <= payload.len() {
            Some(
                DataView {
                    segment_idx: le_u32(payload) as u32,
                    data: payload.subrange(8, 8 + le_u32(payload.subrange(4, 8))),
                },
            )
        } else {
            None
        }
    }

    proof fn lemma_parse_payload(v: DataView) {
        let n = v.data.len() as u32;
        let p = Self::payload_of(v);
        lemma_le_u32_of_u32_le(v.segment_idx, u32_le(n) + v.data);
        lemma_le_u32_of_u32_le(n, Seq::empty());
        assert(p =~= u32_le(v.segment_idx) + (u32_le(n) + v.data));
        assert(p.subrange(4, 8) =~= u32_le(n) + Seq::<u8>::empty());
        assert(p.subrange(8, 8 + n) =~= v.data);
    }

    proof fn lemma_parse_encodable(frame_type: u16, payload: Seq<u8>) {
    }

    fn frame_types() -> (types: Vec<u16>) {
        let mut types: Vec<u16> = Vec::new();
        types.push(FILE_TRANSFER_DATA);
        assert(types@[0] == FILE_TRANSFER_DATA);
        types
    }

    fn frame_type(&self) -> (t: u16) {
        proof {
            use_type_invariant(self);
        }
        FILE_TRANSFER_DATA
    }

    fn try_parse(frame_type: u16, buf: Vec<u8>) -> (r: FrameParsingResult<Self>) {
        if frame_type != FILE_TRANSFER_DATA {
            return FrameParsingResult::Skip(buf);
        }
        if buf.len() < 8 || buf.len() > u32::MAX as usize {
            return FrameParsingResult::Failed(SessionError::Parse);
        }
        let segment_idx = read_u32(&buf[0..4]);
        let chunk_size = read_u32(&buf[4..8]);
        assert(le_u32(buf@.subrange(0, 4)) == le_u32(buf@));
        if chunk_size as usize > buf.len() - 8 {
            return FrameParsingResult::Failed(SessionError::Parse);
        }
        let ghost payload = buf@;
        let mut buf = buf;
        let mut data = buf.split_off(8);
        data.truncate(chunk_size as usize);
        assert(data@ =~= payload.subrange(8, 8 + chunk_size));
        FrameParsingResult::Parsed(FileTransferDataFrame { segment_idx, chunk_size, data })
    }

    fn to_bytes(self) -> (out: Vec<u8>) {
        proof {
            use_type_invariant(&self);
        }
        let mut buf: Vec<u8> = Vec::with_capacity(8 + self.data.len());
        put_u32(&mut buf, self.segment_idx);
        put_u32(&mut buf, self.chunk_size);
        buf.extend_from_slice(self.data.as_slice());
        buf
    }
}

/// What the sending side takes in: the handshake response that opens the
/// transfer, or an acknowledgement that extends it.
#[derive(Debug, PartialEq, Eq)]
pub enum FileTransferNextFrame {
    HandshakeResponseFrame(HandshakeResponseFrame),
    FileTransferAckFrame(FileTransferAckFrame),
}

/// What a [`FileTransferNextFrame`] says.
pub enum NextView {
    HandshakeResponse,
    Ack(AckView),
}

impl View for FileTransferNextFrame {
    type V = NextView;

    open spec fn view(&self) -> NextView {
        match self {
            FileTransferNextFrame::HandshakeResponseFrame(_) => NextView::HandshakeResponse,
            FileTransferNextFrame::FileTransferAckFrame(frame) => NextView::Ack(frame@),
        }
    }
}

impl Frame for FileTransferNextFrame {
    open spec fn accepts(frame_type: u16) -> bool {
        HandshakeResponseFrame::accepts(frame_type) || FileTransferAckFrame::accepts(frame_type)
    }

    open spec fn encodable(v: NextView) -> bool {
        match v {
            NextView::HandshakeResponse => HandshakeResponseFrame::encodable(()),
            NextView::Ack(ack) => FileTransferAckFrame::encodable(ack),
        }
    }

    open spec fn type_of(v: NextView) -> u16 {
        match v {
            NextView::HandshakeResponse => HandshakeResponseFrame::type_of(()),
            NextView::Ack(ack) => FileTransferAckFrame::type_of(ack),
        }
    }

    open spec fn payload_of(v: NextView) -> Seq<u8> {
        match v {
            NextView::HandshakeResponse => HandshakeResponseFrame::payload_of(()),
            NextView::Ack(ack) => FileTransferAckFrame::payload_of(ack),
        }
    }

    /// A handshake response under its type, an acknowledgement under its
    /// own.
    open spec fn parse(frame_type: u16, payload: Seq<u8>) -> Option<NextView> {
        if HandshakeResponseFrame::accepts(frame_type) {
            match HandshakeResponseFrame::parse(frame_type, payload) {
                Some(_) => Some(NextView::HandshakeResponse),
                None => None,
            }
        } else {
            match FileTransferAckFrame::parse(frame_type, payload) {
                Some(ack) => Some(NextView::Ack(ack)),
                None => None,
            }
        }
    }

    proof fn lemma_parse_payload(v: NextView) {
        match v {
            NextView::HandshakeResponse => HandshakeResponseFrame::lemma_parse_payload(()),
            NextView::Ack(ack) => FileTransferAckFrame::lemma_parse_payload(ack),
        }
    }

    proof fn lemma_parse_encodable(frame_type: u16, payload: Seq<u8>) {
    }

    fn frame_types() -> (types: Vec<u16>) {
        let mut types = HandshakeResponseFrame::frame_types();
        let mut more = FileTransferAckFrame::frame_types();
        let ghost first = types@;
        let ghost second = more@;
        types.append(&mut more);
        assert forall|t: u16| types@.contains(t) <==> Self::accepts(t) by {
            if first.contains(t) {
                let i = choose|i: int| 0 <= i < first.len() && first[i] == t;
                assert(types@[i] == t);
            }
            if second.contains(t) {
                let i = choose|i: int| 0 <= i < second.len() && second[i] == t;
                assert(types@[first.len() + i] == t);
            }
        }
        types
    }

    fn frame_type(&self) -> (t: u16) {
        match self {
            FileTransferNextFrame::HandshakeResponseFrame(frame) => frame.frame_type(),
            FileTransferNextFrame::FileTransferAckFrame(frame) => frame.frame_type(),
        }
    }

    fn try_parse(frame_type: u16, buf: Vec<u8>) -> (r: FrameParsingResult<Self>) {
        let result = HandshakeResponseFrame::try_parse(frame_type, buf);
        let buf = match result {
            FrameParsingResult::Parsed(frame) => {
                return FrameParsingResult::Parsed(
                    FileTransferNextFrame::HandshakeResponseFrame(frame),
                );
            },
            FrameParsingResult::Failed(err) => {
                return FrameParsingResult::Failed(err);
            },
            skipped => skipped.unwrap_buf(),
        };
        let result = FileTransferAckFrame::try_parse(frame_type, buf);
        let buf = match result {
            FrameParsingResult::Parsed(frame) => {
                return FrameParsingResult::Parsed(
                    FileTransferNextFrame::FileTransferAckFrame(frame),
                );
            },
            FrameParsingResult::Failed(err) => {
                return FrameParsingResult::Failed(err);
            },
            skipped => skipped.unwrap_buf(),
        };
        FrameParsingResult::Skip(buf)
    }

    fn to_bytes(self) -> (out: Vec<u8>) {
        match self {
            FileTransferNextFrame::HandshakeResponseFrame(frame) => frame.to_bytes(),
            FileTransferNextFrame::FileTransferAckFrame(frame) => frame.to_bytes(),
        }
    }
}

/// What the receiving side sends back: an acknowledgement, or the end of the
/// session.
#[derive(Debug, PartialEq, Eq)]
pub enum FileTransferAckOrEndFrame {
    FileTransferAckFrame(FileTransferAckFrame),
    EndSessionFrame(EndSessionFrame),
}

/// What a [`FileTransferAckOrEndFrame`] says.
pub enum AckOrEndView {
    Ack(AckView),
    EndSession,
}

impl View for FileTransferAckOrEndFrame {
    type V = AckOrEndView;

    open spec fn view(&self) -> AckOrEndView {
        match self {
            FileTransferAckOrEndFrame::FileTransferAckFrame(frame) => AckOrEndView::Ack(frame@),
            FileTransferAckOrEndFrame::EndSessionFrame(_) => AckOrEndView::EndSession,
        }
    }
}

impl Frame for FileTransferAckOrEndFrame {
    open spec fn accepts(frame_type: u16) -> bool {
        FileTransferAckFrame::accepts(frame_type) || EndSessionFrame::accepts(frame_type)
    }

    open spec fn encodable(v: AckOrEndView) -> bool {
        match v {
            AckOrEndView::Ack(ack) => FileTransferAckFrame::encodable(ack),
            AckOrEndView::EndSession => EndSessionFrame::encodable(()),
        }
    }

    open spec fn type_of(v: AckOrEndView) -> u16 {
        match v {
            AckOrEndView::Ack(ack) => FileTransferAckFrame::type_of(ack),
            AckOrEndView::EndSession => EndSessionFrame::type_of(()),
        }
    }

    open spec fn payload_of(v: AckOrEndView) -> Seq<u8> {
        match v {
            AckOrEndView::Ack(ack) => FileTransferAckFrame::payload_of(ack),
            AckOrEndView::EndSession => EndSessionFrame::payload_of(()),
        }
    }

    /// An acknowledgement under its type, the end of the session under its
    /// own.
    open spec fn parse(frame_type: u16, payload: Seq<u8>) -> Option<AckOrEndView> {
        if FileTransferAckFrame::accepts(frame_type) {
            match FileTransferAckFrame::parse(frame_type, payload) {
                Some(ack) => Some(AckOrEndView::Ack(ack)),
                None => None,
            }
        } else {
            match EndSessionFrame::parse(frame_type, payload) {
                Some(_) => Some(AckOrEndView::EndSession),
                None => None,
            }
        }
    }

    proof fn lemma_parse_payload(v: AckOrEndView) {
        match v {
            AckOrEndView::Ack(ack) => FileTransferAckFrame::lemma_parse_payload(ack),
            AckOrEndView::EndSession => EndSessionFrame::lemma_parse_payload(()),
        }
    }

    proof fn lemma_parse_encodable(frame_type: u16, payload: Seq<u8>) {
    }

    fn frame_types() -> (types: Vec<u16>) {
        let mut types = FileTransferAckFrame::frame_types();
        let mut more = EndSessionFrame::frame_types();
        let ghost first = types@;
        let ghost second = more@;
        types.append(&mut more);
        assert forall|t: u16| types@.contains(t) <==> Self::accepts(t) by {
            if first.contains(t) {
                let i = choose|i: int| 0 <= i < first.len() && first[i] == t;
                assert(types@[i] == t);
            }
            if second.contains(t) {
                let i = choose|i: int| 0 <= i < second.len() && second[i] == t;
                assert(types@[first.len() + i] == t);
            }
        }
        types
    }

    fn frame_type(&self) -> (t: u16) {
        match self {
            FileTransferAckOrEndFrame::FileTransferAckFrame(frame) => frame.frame_type(),
            FileTransferAckOrEndFrame::EndSessionFrame(frame) => frame.frame_type(),
        }
    }

    fn try_parse(frame_type: u16, buf: Vec<u8>) -> (r: FrameParsingResult<Self>) {
        let result = FileTransferAckFrame::try_parse(frame_type, buf);
        let buf = match result {
            FrameParsingResult::Parsed(frame) => {
                return FrameParsingResult::Parsed(
                    FileTransferAckOrEndFrame::FileTransferAckFrame(frame),
                );
            },
            FrameParsingResult::Failed(err) => {
                return FrameParsingResult::Failed(err);
            },
            skipped => skipped.unwrap_buf(),
        };
        let result = EndSessionFrame::try_parse(frame_type, buf);
        let buf = match result {
            FrameParsingResult::Parsed(frame) => {
                return FrameParsingResult::Parsed(FileTransferAckOrEndFrame::EndSessionFrame(frame));
            },
            FrameParsingResult::Failed(err) => {
                return FrameParsingResult::Failed(err);
            },
            skipped => skipped.unwrap_buf(),
        };
        FrameParsingResult::Skip(buf)
    }

    fn to_bytes(self) -> (out: Vec<u8>) {
        match self {
            FileTransferAckOrEndFrame::FileTransferAckFrame(frame) => frame.to_bytes(),
            FileTransferAckOrEndFrame::EndSessionFrame(frame) => frame.to_bytes(),
        }
    }
}

/// A piece of the file on its way into a segment: at most [`CHUNK_SIZE`]
/// bytes. It is filled from successive reads until it is full or the file
/// has ended.
#[derive(Debug, PartialEq, Eq)]
pub struct Chunk {
    data: Vec<u8>,
}

impl View for Chunk {
    type V = Seq<u8>;

    closed spec fn view(&self) -> Seq<u8> {
        self.data@
    }
}

/// The number of bytes that a chunk which holds `held` bytes takes of
/// `offered` more: all of them, or as many as still fit.
pub open spec fn taken_by(held: nat, offered: nat) -> nat {
    if held + offered <= CHUNK_SIZE {
        offered
    } else {
        (CHUNK_SIZE - held) as nat
    }
}

/// What a chunk that holds `held` holds after it was filled from `piece`.
pub open spec fn filled_from(held: Seq<u8>, piece: Seq<u8>) -> Seq<u8>
    recommends
        held.len() <= CHUNK_SIZE,
{
    held + piece.subrange(0, taken_by(held.len(), piece.len()) as int)
}

impl Chunk {
    #[verifier::type_invariant]
    spec fn inv(self) -> bool {
        self.data@.len() <= CHUNK_SIZE
    }

    /// A chunk that holds nothing yet, with room for a full one.
    pub fn new() -> (chunk: Self)
        ensures
            chunk@ == Seq::<u8>::empty(),
    {
        Chunk { data: Vec::with_capacity(CHUNK_SIZE) }
    }

    /// A chunk that holds `data`, unless that is more than a chunk can hold.
    pub fn from_vec(data: Vec<u8>) -> (chunk: Option<Self>)
        ensures
            chunk is Some <==> data@.len() <= CHUNK_SIZE,
            chunk matches Some(c) ==> c@ == data@,
    {
        if data.len() > CHUNK_SIZE {
            None
        } else {
            Some(Chunk { data })
        }
    }

    /// The number of bytes held.
    pub fn len(&self) -> (n: usize)
        ensures
            n == self@.len(),
            n <= CHUNK_SIZE,
    {
        proof {
            use_type_invariant(self);
        }
        self.data.len()
    }

    /// The number of bytes that still fit.
    pub fn remaining(&self) -> (n: usize)
        ensures
            n == CHUNK_SIZE - self@.len(),
    {
        proof {
            use_type_invariant(self);
        }
        CHUNK_SIZE - self.data.len()
    }

    /// Whether no more bytes fit.
    pub fn is_full(&self) -> (full: bool)
        ensures
            full == (self@.len() == CHUNK_SIZE),
    {
        self.data.len() == CHUNK_SIZE
    }

    /// Takes bytes from the front of `piece`, as many as still fit, and says
    /// how many were taken.
    pub fn fill(&mut self, piece: &[u8]) -> (taken: usize)
        ensures
            taken == taken_by(old(self)@.len(), piece@.len()),
            final(self)@ == filled_from(old(self)@, piece@),
            final(self)@.len() <= CHUNK_SIZE,
    {
        proof {
            use_type_invariant(&*self);
        }
        let room = CHUNK_SIZE - self.data.len();
        let taken = if piece.len() <= room {
            piece.len()
        } else {
            room
        };
        let mut data: Vec<u8> = Vec::new();
        core::mem::swap(&mut self.data, &mut data);
        data.extend_from_slice(&piece[0..taken]);
        assert(data@ =~= old(self).data@ + piece@.subrange(0, taken as int));
        self.data = data;
        taken
    }

    /// The bytes held.
    pub fn into_vec(self) -> (data: Vec<u8>)
        ensures
            data@ == self@,
    {
        self.data
    }
}

/// What the sender tells its user about the progress of the transfer.
#[derive(Clone, Copy, Debug, PartialEq, Eq)]
pub enum FileTransferEvent {
    /// The peer acknowledged the segments up to the one of this index; the
    /// second field is the number of file bytes sent so far.
    SegmentSent(u32, u64),
    /// The whole file was sent.
    Complete,
}

/// The state of the sending side.
pub struct SenderView {
    /// The index that the next segment gets. It starts at 1.
    pub cur_segment: nat,
    /// The credit: the number of segments that may be sent before the next
    /// acknowledgement.
    pub sending_window: nat,
    /// The number of file bytes sent so far.
    pub bytes_sent: nat,
    /// Whether the empty segment that ends the file was sent.
    pub finished: bool,
}

impl SenderView {
    /// The state that a sender starts in.
    pub open spec fn init() -> SenderView {
        SenderView { cur_segment: 1, sending_window: 0, bytes_sent: 0, finished: false }
    }

    /// What holds of a sender at every point of a session.
    pub open spec fn inv(self) -> bool {
        &&& 1 <= self.cur_segment <= u32::MAX
        &&& self.sending_window <= MAX_WINDOW
        &&& self.bytes_sent <= (self.cur_segment - 1) * CHUNK_SIZE
    }

    /// The credit after a grant of [`WINDOW_INCREMENT`] segments.
    pub open spec fn widened(self) -> nat {
        if self.sending_window + WINDOW_INCREMENT <= MAX_WINDOW {
            self.sending_window + WINDOW_INCREMENT as nat
        } else {
            MAX_WINDOW as nat
        }
    }

    /// Whether an inbound frame is out of order for the sender: an
    /// acknowledgement of a segment that is yet to be sent.
    pub open spec fn violates(self, frame: NextView) -> bool {
        frame matches NextView::Ack(ack) && ack.segment_idx > self.cur_segment
    }

    /// The state after an inbound frame. The handshake response sets the
    /// credit to [`INITIAL_WINDOW`]; an acknowledgement adds
    /// [`WINDOW_INCREMENT`], up to [`MAX_WINDOW`]; a frame out of order
    /// changes nothing.
    pub open spec fn on_frame(self, frame: NextView) -> SenderView {
        match frame {
            NextView::HandshakeResponse => SenderView {
                sending_window: INITIAL_WINDOW as nat,
                ..self
            },
            NextView::Ack(ack) => if ack.segment_idx > self.cur_segment {
                self
            } else {
                SenderView { sending_window: self.widened(), ..self }
            },
        }
    }

    /// What the user is told after an inbound frame.
    pub open spec fn event_on_frame(self, frame: NextView) -> Option<FileTransferEvent> {
        match frame {
            NextView::HandshakeResponse => None,
            NextView::Ack(ack) => Some(
                FileTransferEvent::SegmentSent(
                    (self.cur_segment - 1) as u32,
                    self.bytes_sent as u64,
                ),
            ),
        }
    }

    /// Whether the sender is to send a segment now: it has credit and the
    /// file has not ended.
    pub open spec fn wants_segment(self) -> bool {
        self.sending_window > 0 && !self.finished
    }

    /// Whether the sender can send a segment now: it is to send one, and an
    /// index is left to follow the segment's own.
    pub open spec fn can_send(self) -> bool {
        self.wants_segment() && self.cur_segment < u32::MAX
    }

    /// The segment that carries `chunk` in this state.
    pub open spec fn segment(self, chunk: Seq<u8>) -> DataView {
        DataView { segment_idx: self.cur_segment as u32, data: chunk }
    }

    /// The state after a segment with `chunk` was sent. An empty chunk ends
    /// the file.
    pub open spec fn sent(self, chunk: Seq<u8>) -> SenderView {
        SenderView {
            cur_segment: self.cur_segment + 1,
            sending_window: (self.sending_window - 1) as nat,
            bytes_sent: self.bytes_sent + chunk.len(),
            finished: chunk.len() == 0,
        }
    }
}

/// The credit of a sender never leaves its bounds: a sender starts within
/// the invariant, and every inbound frame and every segment sent keeps it
/// there.
pub proof fn lemma_sender_inv(v: SenderView, frame: NextView, chunk: Seq<u8>)
    requires
        v.inv(),
    ensures
        SenderView::init().inv(),
        v.on_frame(frame).inv(),
        v.on_frame(frame).sending_window <= MAX_WINDOW,
        v.can_send() && chunk.len() <= CHUNK_SIZE ==> v.sent(chunk).inv(),
{
}

/// Segments are numbered as they are sent: a segment gets the current index
/// and the index then moves on by one; no inbound frame moves it. The empty
/// segment, and no other, finishes the sender, and a finished sender sends
/// no more.
pub proof fn lemma_segment_numbers(v: SenderView, frame: NextView, chunk: Seq<u8>)
    requires
        v.inv(),
    ensures
        v.segment(chunk).segment_idx == v.cur_segment,
        v.sent(chunk).cur_segment == v.cur_segment + 1,
        v.sent(chunk).finished == (chunk.len() == 0),
        v.on_frame(frame).cur_segment == v.cur_segment,
        v.on_frame(frame).finished == v.finished,
        v.finished ==> !v.can_send() && !v.on_frame(frame).can_send(),
{
}

/// The sending side of a file transfer. It takes the handshake response and
/// the acknowledgements, keeps the credit, and numbers the segments.
///
/// The driver hands it the inbound frames, and while it
/// [wants a segment](Self::wants_segment) reads the next chunk of the file
/// and hands it to [`send_segment`](Self::send_segment).
pub struct FileTransferNextHandler {
    cur_segment: u32,
    sending_window: u32,
    bytes_sent: u64,
    finished: bool,
}

impl View for FileTransferNextHandler {
    type V = SenderView;

    closed spec fn view(&self) -> SenderView {
        SenderView {
            cur_segment: self.cur_segment as nat,
            sending_window: self.sending_window as nat,
            bytes_sent: self.bytes_sent as nat,
            finished: self.finished,
        }
    }
}

impl FileTransferNextHandler {
    #[verifier::type_invariant]
    spec fn inv(self) -> bool {
        self@.inv()
    }

    /// A sender before the handshake: no credit, nothing sent.
    pub fn new() -> (handler: Self)
        ensures
            handler@ == SenderView::init(),
    {
        FileTransferNextHandler { cur_segment: 1, sending_window: 0, bytes_sent: 0, finished: false }
    }

    /// The index that the next segment gets.
    pub fn cur_segment(&self) -> (idx: u32)
        ensures
            idx == self@.cur_segment,
            self@.inv(),
    {
        proof {
            use_type_invariant(self);
        }
        self.cur_segment
    }

    /// The credit, in segments.
    pub fn sending_window(&self) -> (window: u32)
        ensures
            window == self@.sending_window,
            window <= MAX_WINDOW,
    {
        proof {
            use_type_invariant(self);
        }
        self.sending_window
    }

    /// The number of file bytes sent so far.
    pub fn bytes_sent(&self) -> (n: u64)
        ensures
            n == self@.bytes_sent,
    {
        self.bytes_sent
    }

    /// Whether the empty segment that ends the file was sent.
    pub fn finished(&self) -> (done: bool)
        ensures
            done == self@.finished,
    {
        self.finished
    }

    /// Whether the driver is to read a chunk and send it now.
    pub fn wants_segment(&self) -> (wanted: bool)
        ensures
            wanted == self@.wants_segment(),
    {
        self.sending_window > 0 && !self.finished
    }

    /// Sends the segment that carries `chunk`: numbers it, enqueues it in the
    /// mailbox, and spends one credit. An empty chunk ends the file, and the
    /// user is told that the transfer is complete.
    ///
    /// Without credit, after the end of the file, or with no index left, the
    /// call is a protocol violation; on a terminated endpoint the mailbox is
    /// closed. Either way nothing changes.
    pub fn send_segment(&mut self, chunk: Chunk, handle: &mut EndpointHandle) -> (answer: Result<
        Option<FileTransferEvent>,
        SessionError,
    >)
        ensures
            final(self)@.inv(),
            match answer {
                Ok(event) => {
                    &&& old(self)@.can_send() && !old(handle)@.closed
                    &&& final(self)@ == old(self)@.sent(chunk@)
                    &&& final(handle)@ == old(handle)@.send(
                        frame_bytes(
                            FILE_TRANSFER_DATA,
                            FileTransferDataFrame::payload_of(old(self)@.segment(chunk@)),
                        ),
                    )
                    &&& event == if chunk@.len() == 0 {
                        Some(FileTransferEvent::Complete)
                    } else {
                        None
                    }
                },
                Err(e) => {
                    &&& final(self)@ == old(self)@
                    &&& final(handle)@ == old(handle)@
                    &&& e == if !old(self)@.can_send() {
                        SessionError::ProtocolViolation
                    } else {
                        SessionError::MailboxClosed
                    }
                    &&& !old(self)@.can_send() || old(handle)@.closed
                },
            },
    {
        proof {
            use_type_invariant(&*self);
            use_type_invariant(&chunk);
        }
        if self.sending_window == 0 || self.finished || self.cur_segment == u32::MAX {
            return Err(SessionError::ProtocolViolation);
        }
        if handle.is_closed() {
            return Err(SessionError::MailboxClosed);
        }
        let total_read_size = chunk.len();
        let frame = FileTransferDataFrame::new(self.cur_segment, chunk);
        let sent = handle.send_frame(frame);
        assert(sent is Ok);
        *self = FileTransferNextHandler {
            cur_segment: self.cur_segment + 1,
            sending_window: self.sending_window - 1,
            bytes_sent: self.bytes_sent + total_read_size as u64,
            finished: total_read_size == 0,
        };
        if total_read_size == 0 {
            Ok(Some(FileTransferEvent::Complete))
        } else {
            Ok(None)
        }
    }
}

impl FrameHandler for FileTransferNextHandler {
    type IncomingFrame = FileTransferNextFrame;

    type Output = Option<FileTransferEvent>;

    open spec fn handles(
        pre: Self,
        frame: NextView,
        mailbox: MailboxView,
        post: Self,
        post_mailbox: MailboxView,
        answer: Result<Option<FileTransferEvent>, SessionError>,
    ) -> bool {
        &&& post@ == pre@.on_frame(frame)
        &&& post@.inv()
        &&& post_mailbox == mailbox
        &&& answer == if pre@.violates(frame) {
            Err::<Option<FileTransferEvent>, SessionError>(SessionError::ProtocolViolation)
        } else {
            Ok::<Option<FileTransferEvent>, SessionError>(pre@.event_on_frame(frame))
        }
    }

    /// Takes the handshake response or an acknowledgement and grants the
    /// credit that it stands for. An acknowledgement tells the user how far
    /// the transfer has come; one that names a segment yet to be sent is a
    /// protocol violation.
    fn handle_frame(&mut self, frame: FileTransferNextFrame, handle: &mut EndpointHandle) -> (answer:
        Result<Option<FileTransferEvent>, SessionError>) {
        proof {
            use_type_invariant(&*self);
        }
        match frame {
            FileTransferNextFrame::FileTransferAckFrame(frame) => {
                if frame.segment_idx() > self.cur_segment {
                    return Err(SessionError::ProtocolViolation);
                }
                let event = FileTransferEvent::SegmentSent(self.cur_segment - 1, self.bytes_sent);
                if self.sending_window + WINDOW_INCREMENT <= MAX_WINDOW {
                    self.sending_window = self.sending_window + WINDOW_INCREMENT;
                } else {
                    self.sending_window = MAX_WINDOW;
                }
                Ok(Some(event))
            },
            FileTransferNextFrame::HandshakeResponseFrame(_) => {
                self.sending_window = INITIAL_WINDOW;
                Ok(None)
            },
        }
    }
}

/// What the receiver leaves for the driver to do with the output file.
#[derive(Debug, PartialEq, Eq)]
pub enum FileAction {
    /// Append these bytes.
    Append(Vec<u8>),
    /// Flush what was written: the file has ended.
    Flush,
}

/// What a [`FileAction`] says.
pub enum FileActionView {
    Append(Seq<u8>),
    Flush,
}

impl View for FileAction {
    type V = FileActionView;

    open spec fn view(&self) -> FileActionView {
        match self {
            FileAction::Append(data) => FileActionView::Append(data@),
            FileAction::Flush => FileActionView::Flush,
        }
    }
}

/// The state of the receiving side.
pub struct ReceiverView {
    /// The number of segments received since the last acknowledgement.
    pub windowed_recv_segments: nat,
}

impl ReceiverView {
    /// The state that a receiver starts in.
    pub open spec fn init() -> ReceiverView {
        ReceiverView { windowed_recv_segments: 0 }
    }

    /// What holds of a receiver at every point of a session.
    pub open spec fn inv(self) -> bool {
        self.windowed_recv_segments < ACK_INTERVAL
    }

    /// Whether a segment ends the file.
    pub open spec fn is_terminal(frame: DataView) -> bool {
        frame.data.len() == 0
    }

    /// Whether a segment is the one that an acknowledgement is due after.
    pub open spec fn ack_due(self, frame: DataView) -> bool {
        !Self::is_terminal(frame) && self.windowed_recv_segments + 1 >= ACK_INTERVAL
    }

    /// Whether a segment cannot be answered: an acknowledgement is due after
    /// it and no index follows its own.
    pub open spec fn violates(self, frame: DataView) -> bool {
        self.ack_due(frame) && frame.segment_idx == u32::MAX
    }

    /// The frame that the receiver sends back after a segment, if any: the
    /// end of the session after the empty segment, an acknowledgement of the
    /// next index after every [`ACK_INTERVAL`] others.
    pub open spec fn reply(self, frame: DataView) -> Option<AckOrEndView> {
        if Self::is_terminal(frame) {
            Some(AckOrEndView::EndSession)
        } else if self.ack_due(frame) && frame.segment_idx < u32::MAX {
            Some(AckOrEndView::Ack(AckView { segment_idx: (frame.segment_idx + 1) as u32 }))
        } else {
            None
        }
    }

    /// The state after a segment.
    pub open spec fn received(self, frame: DataView) -> ReceiverView {
        if Self::is_terminal(frame) || self.violates(frame) {
            self
        } else if self.ack_due(frame) {
            ReceiverView { windowed_recv_segments: 0 }
        } else {
            ReceiverView { windowed_recv_segments: self.windowed_recv_segments + 1 }
        }
    }

    /// What is to be done with the output file after a segment.
    pub open spec fn file_action(frame: DataView) -> FileActionView {
        if Self::is_terminal(frame) {
            FileActionView::Flush
        } else {
            FileActionView::Append(frame.data)
        }
    }
}

/// The count of a receiver never leaves its bounds: a receiver starts within
/// the invariant, and every segment keeps it there.
pub proof fn lemma_receiver_inv(v: ReceiverView, frame: DataView)
    requires
        v.inv(),
    ensures
        ReceiverView::init().inv(),
        v.received(frame).inv(),
{
}

/// The bytes on the wire of a reply.
pub open spec fn reply_bytes(reply: AckOrEndView) -> Seq<u8> {
    frame_bytes(
        FileTransferAckOrEndFrame::type_of(reply),
        FileTransferAckOrEndFrame::payload_of(reply),
    )
}

/// The receiving side of a file transfer. It takes the data segments, hands
/// their bytes to the driver for the output file, and acknowledges every
/// [`ACK_INTERVAL`] of them.
pub struct FileTransferReceivingHandler {
    windowed_recv_segments: u32,
}

impl View for FileTransferReceivingHandler {
    type V = ReceiverView;

    closed spec fn view(&self) -> ReceiverView {
        ReceiverView { windowed_recv_segments: self.windowed_recv_segments as nat }
    }
}

impl FileTransferReceivingHandler {
    #[verifier::type_invariant]
    spec fn inv(self) -> bool {
        self@.inv()
    }

    /// A receiver that has counted no segment yet.
    pub fn new() -> (handler: Self)
        ensures
            handler@ == ReceiverView::init(),
    {
        FileTransferReceivingHandler { windowed_recv_segments: 0 }
    }

    /// The number of segments received since the last acknowledgement.
    pub fn windowed_recv_segments(&self) -> (n: u32)
        ensures
            n == self@.windowed_recv_segments,
            n < ACK_INTERVAL,
    {
        proof {
            use_type_invariant(self);
        }
        self.windowed_recv_segments
    }
}

impl FrameHandler for FileTransferReceivingHandler {
    type IncomingFrame = FileTransferDataFrame;

    type Output = FileAction;

    open spec fn handles(
        pre: Self,
        frame: DataView,
        mailbox: MailboxView,
        post: Self,
        post_mailbox: MailboxView,
        answer: Result<FileAction, SessionError>,
    ) -> bool {
        &&& post@.inv()
        &&& if pre@.violates(frame) {
            &&& post@ == pre@
            &&& post_mailbox == mailbox
            &&& answer matches Err(e)
            &&& e == SessionError::ProtocolViolation
        } else if pre@.reply(frame) is Some && mailbox.closed {
            &&& post@ == pre@
            &&& post_mailbox == mailbox
            &&& answer matches Err(e)
            &&& e == SessionError::MailboxClosed
        } else {
            &&& post@ == pre@.received(frame)
            &&& post_mailbox == match pre@.reply(frame) {
                Some(reply) => mailbox.send(reply_bytes(reply)),
                None => mailbox,
            }
            &&& answer matches Ok(action)
            &&& action@ == ReceiverView::file_action(frame)
        }
    }

    /// Takes a data segment. The empty segment ends the file: the driver is
    /// to flush the output and the end of the session is enqueued. Any other
    /// segment is to be appended to the output, and after every
    /// [`ACK_INTERVAL`] of them an acknowledgement of the next index is
    /// enqueued.
    fn handle_frame(&mut self, frame: FileTransferDataFrame, handle: &mut EndpointHandle) -> (answer:
        Result<FileAction, SessionError>) {
        proof {
            use_type_invariant(&*self);
        }
        if frame.chunk_size() == 0 {
            if handle.is_closed() {
                return Err(SessionError::MailboxClosed);
            }
            let sent = handle.send_frame(FileTransferAckOrEndFrame::EndSessionFrame(EndSessionFrame));
            assert(sent is Ok);
            return Ok(FileAction::Flush);
        }
        if self.windowed_recv_segments + 1 >= ACK_INTERVAL {
            if frame.segment_idx() == u32::MAX {
                return Err(SessionError::ProtocolViolation);
            }
            if handle.is_closed() {
                return Err(SessionError::MailboxClosed);
            }
            let sent = handle.send_frame(
                FileTransferAckOrEndFrame::FileTransferAckFrame(
                    FileTransferAckFrame::new(frame.segment_idx() + 1),
                ),
            );
            assert(sent is Ok);
            self.windowed_recv_segments = 0;
        } else {
            self.windowed_recv_segments = self.windowed_recv_segments + 1;
        }
        Ok(FileAction::Append(frame.data))
    }
}

} // verus!
