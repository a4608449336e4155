//! The transfer as a whole: a file goes chunk by chunk through the sender,
//! over the wire and through the receiver into the output, with the
//! acknowledgements going back. What is shown here holds of a session in
//! which both sides run the handlers of this library.

use crate::handlers::file_transfer::{
    filled_from, AckOrEndView, AckView, DataView, FileActionView, FileTransferAckOrEndFrame,
    FileTransferDataFrame, FileTransferNextFrame, NextView, ReceiverView, SenderView,
    ACK_INTERVAL, CHUNK_SIZE, INITIAL_WINDOW, MAX_WINDOW,
};
use crate::handlers::handshake::HandshakeResponseFrame;
use crate::handlers::session::EndSessionFrame;
use crate::proto::Frame;
use crate::wire::{decode, frame_bytes, lemma_decode_frame_bytes};
use vstd::prelude::*;

verus! {

/// What arrives when a frame `v` of kind `F` is encoded, put on the wire, and
/// decoded and parsed by a peer that expects frames of kind `G`.
#[verifier::opaque]
pub open spec fn carried<F: Frame, G: Frame>(v: F::V) -> Option<G::V> {
    match decode(frame_bytes(F::type_of(v), F::payload_of(v))) {
        Some((frame_type, payload)) => G::parse(frame_type, payload),
        None => None,
    }
}

/// A frame arrives as it was sent.
pub proof fn lemma_carried<F: Frame>(v: F::V)
    requires
        F::encodable(v),
    ensures
        carried::<F, F>(v) == Some(v),
{
    reveal(carried);
    F::lemma_parse_payload(v);
    lemma_decode_frame_bytes(F::type_of(v), F::payload_of(v), Seq::empty());
    assert(frame_bytes(F::type_of(v), F::payload_of(v)) + Seq::<u8>::empty() =~= frame_bytes(
        F::type_of(v),
        F::payload_of(v),
    ));
}

/// An acknowledgement that the receiving side sends arrives at the sending
/// side as the same acknowledgement.
pub proof fn lemma_carried_ack(ack: AckView)
    ensures
        carried::<FileTransferAckOrEndFrame, FileTransferNextFrame>(AckOrEndView::Ack(ack)) == Some(
            NextView::Ack(ack),
        ),
{
    reveal(carried);
    lemma_carried::<FileTransferAckOrEndFrame>(AckOrEndView::Ack(ack));
}

/// The handshake response that the server sends arrives at the sending side
/// as the frame that opens the transfer.
pub proof fn lemma_carried_response()
    ensures
        carried::<HandshakeResponseFrame, FileTransferNextFrame>(()) == Some(
            NextView::HandshakeResponse,
        ),
{
    reveal(carried);
    lemma_carried::<HandshakeResponseFrame>(());
}

/// The end of the session that the receiving side sends arrives at the
/// sending side as the end of the session.
pub proof fn lemma_carried_end()
    ensures
        carried::<FileTransferAckOrEndFrame, EndSessionFrame>(AckOrEndView::EndSession) == Some(()),
{
    reveal(carried);
    lemma_carried::<FileTransferAckOrEndFrame>(AckOrEndView::EndSession);
}

/// The number of segments that carry bytes of a file of `len` bytes.
#[verifier::opaque]
pub open spec fn data_segments(len: nat) -> nat {
    ((len + CHUNK_SIZE - 1) / (CHUNK_SIZE as int)) as nat
}

/// The number of segments that a file of `len` bytes is sent in: those that
/// carry its bytes, and the empty one that ends it.
pub open spec fn total_segments(len: nat) -> nat {
    data_segments(len) + 1
}

/// The number of bytes of a file of `len` bytes that lie before its segment
/// `n`, counted from 0.
#[verifier::opaque]
pub open spec fn position(len: nat, n: nat) -> nat {
    if n * CHUNK_SIZE <= len {
        n * (CHUNK_SIZE as nat)
    } else {
        len
    }
}

/// The chunk that a driver reads at `offset`: the bytes from there on, up to
/// [`CHUNK_SIZE`] of them, and none at the end of the file.
pub open spec fn chunk_at(file: Seq<u8>, offset: nat) -> Seq<u8>
    recommends
        offset <= file.len(),
{
    if offset + CHUNK_SIZE <= file.len() {
        file.subrange(offset as int, offset + CHUNK_SIZE)
    } else {
        file.subrange(offset as int, file.len() as int)
    }
}

/// What a chunk that holds `held` holds after it was filled from `pieces`,
/// one after the other.
pub open spec fn filled_from_all(held: Seq<u8>, pieces: Seq<Seq<u8>>) -> Seq<u8>
    decreases pieces.len(),
{
    if pieces.len() == 0 {
        held
    } else {
        filled_from_all(filled_from(held, pieces.first()), pieces.drop_first())
    }
}

/// A chunk that is filled from pieces holds what it held and what the
/// pieces hold, in order, up to [`CHUNK_SIZE`] bytes.
pub proof fn lemma_filled_from_all(held: Seq<u8>, pieces: Seq<Seq<u8>>)
    requires
        held.len() <= CHUNK_SIZE,
    ensures
        filled_from_all(held, pieces) == if held.len() + pieces.flatten().len() <= CHUNK_SIZE {
            held + pieces.flatten()
        } else {
            (held + pieces.flatten()).subrange(0, CHUNK_SIZE as int)
        },
    decreases pieces.len(),
{
    if pieces.len() == 0 {
        assert(held + pieces.flatten() =~= held);
    } else {
        let first = pieces.first();
        let rest = pieces.drop_first();
        let next = filled_from(held, first);
        lemma_filled_from_all(next, rest);
        assert(pieces.flatten() == first + rest.flatten());
        if held.len() + first.len() <= CHUNK_SIZE {
            assert(next =~= held + first);
            assert(next + rest.flatten() =~= held + pieces.flatten());
        } else {
            assert(next.len() == CHUNK_SIZE);
            assert(filled_from_all(held, pieces) =~= (next + rest.flatten()).subrange(
                0,
                CHUNK_SIZE as int,
            ));
            assert((next + rest.flatten()).subrange(0, CHUNK_SIZE as int) =~= (held
                + pieces.flatten()).subrange(0, CHUNK_SIZE as int));
        }
    }
}

/// However the reads of a driver are split, the chunk that it fills holds
/// the chunk of the file at its offset: where `pieces` are what successive
/// reads from `offset` gave, and the driver stopped because the chunk was
/// full or because the file had ended.
pub proof fn lemma_chunk_read(file: Seq<u8>, offset: nat, pieces: Seq<Seq<u8>>)
    requires
        offset + pieces.flatten().len() <= file.len(),
        pieces.flatten() == file.subrange(
            offset as int,
            (offset + pieces.flatten().len()) as int,
        ),
        filled_from_all(Seq::empty(), pieces).len() == CHUNK_SIZE || offset
            + pieces.flatten().len() == file.len(),
    ensures
        filled_from_all(Seq::empty(), pieces) == chunk_at(file, offset),
{
    lemma_filled_from_all(Seq::empty(), pieces);
    assert(Seq::<u8>::empty() + pieces.flatten() =~= pieces.flatten());
    assert(filled_from_all(Seq::empty(), pieces) =~= chunk_at(file, offset));
}

/// A session in progress.
pub struct Transfer {
    /// The sending side.
    pub sender: SenderView,
    /// The receiving side.
    pub receiver: ReceiverView,
    /// The number of bytes of the file that were read.
    pub offset: nat,
    /// The segments that the sender has sent, in order.
    pub segments: Seq<DataView>,
    /// The frames that the receiver has sent back, in order.
    pub replies: Seq<AckOrEndView>,
    /// The number of segments that the sender was told have arrived.
    pub acknowledged: nat,
    /// The bytes that were appended to the output.
    pub output: Seq<u8>,
    /// Whether the output was flushed.
    pub flushed: bool,
}

/// The session when the handshake response has crossed the wire and the
/// sender has taken it.
pub open spec fn opened() -> Transfer {
    Transfer {
        sender: SenderView::init().on_frame(
            carried::<HandshakeResponseFrame, FileTransferNextFrame>(())->0,
        ),
        receiver: ReceiverView::init(),
        offset: 0,
        segments: Seq::empty(),
        replies: Seq::empty(),
        acknowledged: 0,
        output: Seq::empty(),
        flushed: false,
    }
}

/// One segment of the session: the driver reads a chunk, the sender sends it
/// as a segment, the segment crosses the wire, the receiver takes it and the
/// driver on that side does what it is left to do with the output. Where the
/// receiver acknowledges, the acknowledgement crosses the wire and the
/// sender takes it.
pub open spec fn step(file: Seq<u8>, t: Transfer) -> Transfer {
    let chunk = chunk_at(file, t.offset);
    let segment = t.sender.segment(chunk);
    let sender = t.sender.sent(chunk);
    let arrived = carried::<FileTransferDataFrame, FileTransferDataFrame>(segment)->0;
    let reply = t.receiver.reply(arrived);
    Transfer {
        sender: match reply {
            Some(AckOrEndView::Ack(ack)) => sender.on_frame(
                carried::<FileTransferAckOrEndFrame, FileTransferNextFrame>(
                    AckOrEndView::Ack(ack),
                )->0,
            ),
            _ => sender,
        },
        receiver: t.receiver.received(arrived),
        offset: t.offset + chunk.len(),
        segments: t.segments.push(segment),
        replies: match reply {
            Some(frame) => t.replies.push(frame),
            None => t.replies,
        },
        acknowledged: match reply {
            Some(AckOrEndView::Ack(ack)) => (ack.segment_idx - 1) as nat,
            _ => t.acknowledged,
        },
        output: match ReceiverView::file_action(arrived) {
            FileActionView::Append(data) => t.output + data,
            FileActionView::Flush => t.output,
        },
        flushed: t.flushed || ReceiverView::file_action(arrived) is Flush,
    }
}

/// The session after `n` segments.
pub open spec fn after(file: Seq<u8>, n: nat) -> Transfer
    decreases n,
{
    if n == 0 {
        opened()
    } else {
        step(file, after(file, (n - 1) as nat))
    }
}

/// The session when the last segment has gone through.
pub open spec fn transfer(file: Seq<u8>) -> Transfer {
    after(file, total_segments(file.len()))
}

/// Whether a file is short enough for its segments to be numbered: the
/// index after the last one is a 32-bit number.
pub open spec fn numberable(file: Seq<u8>) -> bool {
    total_segments(file.len()) < u32::MAX
}

/// The number of segments in flight: sent, and not known to have arrived.
pub open spec fn in_flight(t: Transfer) -> int {
    t.segments.len() - t.acknowledged
}

/// The acknowledgement that answers segment `8 * (j + 1)`.
pub open spec fn nth_ack(j: int) -> AckOrEndView {
    AckOrEndView::Ack(AckView { segment_idx: (ACK_INTERVAL * (j + 1) + 1) as u32 })
}

/// What holds of a session after `n` of its segments.
pub open spec fn on_course(file: Seq<u8>, n: nat, t: Transfer) -> bool {
    let len = file.len();
    let data = data_segments(len);
    &&& t.sender.inv()
    &&& t.receiver.inv()
    &&& t.sender.cur_segment == n + 1
    &&& t.sender.bytes_sent == t.offset
    &&& t.offset == position(len, n)
    &&& t.output == file.subrange(0, t.offset as int)
    &&& t.segments.len() == n
    &&& forall|i: int|
        0 <= i < n ==> #[trigger] t.segments[i] == (DataView {
            segment_idx: (i + 1) as u32,
            data: chunk_at(file, position(len, i as nat)),
        })
    &&& in_flight(t) + t.sender.sending_window == INITIAL_WINDOW
    &&& if n <= data {
        &&& !t.sender.finished
        &&& !t.flushed
        &&& t.receiver.windowed_recv_segments == n % (ACK_INTERVAL as nat)
        &&& t.sender.sending_window == INITIAL_WINDOW - n % (ACK_INTERVAL as nat)
        &&& t.replies.len() == n / (ACK_INTERVAL as nat)
        &&& forall|j: int| 0 <= j < t.replies.len() ==> #[trigger] t.replies[j] == nth_ack(j)
    } else {
        &&& t.sender.finished
        &&& t.flushed
        &&& t.replies.len() == data / (ACK_INTERVAL as nat) + 1
        &&& forall|j: int| 0 <= j < t.replies.len() - 1 ==> #[trigger] t.replies[j] == nth_ack(j)
        &&& t.replies.last() == AckOrEndView::EndSession
    }
}

/// Where the segments of a file begin and end: each segment that carries
/// bytes begins inside the file and carries what is left of it, up to
/// [`CHUNK_SIZE`] bytes; the one after them begins at the end.
pub proof fn lemma_position(len: nat, n: nat)
    requires
        n <= data_segments(len),
    ensures
        position(len, 0) == 0,
        position(len, n) <= len,
        n < data_segments(len) ==> position(len, n) < len && position(len, n + 1) == if position(
            len,
            n,
        ) + CHUNK_SIZE <= len {
            position(len, n) + CHUNK_SIZE
        } else {
            len as int
        },
        n == data_segments(len) ==> position(len, n) == len && position(len, n + 1) == len,
{
    reveal(position);
    reveal(data_segments);
}

/// How the count of segments since the last acknowledgement moves with one
/// more segment.
pub proof fn lemma_cadence(n: nat)
    ensures
        n % 8 < 8,
        (n + 1) % 8 == if n % 8 == 7 {
            0
        } else {
            n % 8 + 1
        },
        (n + 1) / 8 == if n % 8 == 7 {
            n / 8 + 1
        } else {
            n / 8
        },
        n % 8 == 7 ==> n + 1 == 8 * (n / 8 + 1),
{
}

/// Every segment of a session finds both sides ready for it and leaves them
/// on course: the sender has credit and an index to give, the segment
/// arrives as it was sent, the receiver can answer it, and an
/// acknowledgement reaches a sender that has spent its credit and takes it
/// as in order.
pub proof fn lemma_step(file: Seq<u8>, n: nat)
    requires
        numberable(file),
        n < total_segments(file.len()),
        on_course(file, n, after(file, n)),
    ensures
        on_course(file, n + 1, after(file, n + 1)),
        ({
            let t = after(file, n);
            let chunk = chunk_at(file, t.offset);
            let segment = t.sender.segment(chunk);
            &&& t.sender.can_send()
            &&& chunk.len() <= CHUNK_SIZE
            &&& (chunk.len() == 0 <==> n == data_segments(file.len()))
            &&& carried::<FileTransferDataFrame, FileTransferDataFrame>(segment) == Some(segment)
            &&& !t.receiver.violates(segment)
            &&& t.receiver.reply(segment) matches Some(AckOrEndView::Ack(ack)) ==> {
                &&& !t.sender.sent(chunk).wants_segment()
                &&& !t.sender.sent(chunk).violates(NextView::Ack(ack))
                &&& ack.segment_idx == t.sender.sent(chunk).cur_segment
            }
        }),
{
    let len = file.len();
    let data = data_segments(len);
    let t = after(file, n);
    let next = after(file, n + 1);
    assert(next == step(file, t));
    lemma_position(len, n);
    lemma_cadence(n);
    let chunk = chunk_at(file, t.offset);
    let segment = t.sender.segment(chunk);
    assert(FileTransferDataFrame::encodable(segment));
    lemma_carried::<FileTransferDataFrame>(segment);
    match t.receiver.reply(segment) {
        Some(AckOrEndView::Ack(ack)) => lemma_carried_ack(ack),
        _ => {},
    }
    assert(next.output =~= file.subrange(0, next.offset as int));
    assert forall|i: int| 0 <= i < n + 1 implies #[trigger] next.segments[i] == (DataView {
        segment_idx: (i + 1) as u32,
        data: chunk_at(file, position(len, i as nat)),
    }) by {
        if i < n {
            assert(next.segments[i] == t.segments[i]);
        }
    }
    if n + 1 <= data {
        assert forall|j: int| 0 <= j < next.replies.len() implies #[trigger] next.replies[j]
            == nth_ack(j) by {
            if j < t.replies.len() {
                assert(next.replies[j] == t.replies[j]);
            }
        }
    } else {
        assert forall|j: int| 0 <= j < next.replies.len() - 1 implies #[trigger] next.replies[j]
            == nth_ack(j) by {
            assert(next.replies[j] == t.replies[j]);
        }
    }
}

/// A session is on course after each of its segments.
pub proof fn lemma_on_course(file: Seq<u8>, n: nat)
    requires
        numberable(file),
        n <= total_segments(file.len()),
    ensures
        on_course(file, n, after(file, n)),
    decreases n,
{
    if n == 0 {
        lemma_carried_response();
        lemma_position(file.len(), 0);
        assert(after(file, 0).output =~= file.subrange(0, 0));
    } else {
        lemma_on_course(file, (n - 1) as nat);
        lemma_step(file, (n - 1) as nat);
    }
}

/// A file arrives whole: when the last segment has gone through, the output
/// holds the bytes of the file, all of them and in order, and was flushed;
/// the sender has counted every byte and is finished; and the last thing the
/// receiver sent is the end of the session.
pub proof fn lemma_round_trip(file: Seq<u8>)
    requires
        numberable(file),
    ensures
        transfer(file).output == file,
        transfer(file).flushed,
        transfer(file).sender.finished,
        transfer(file).sender.bytes_sent == file.len(),
        transfer(file).replies.last() == AckOrEndView::EndSession,
{
    let total = total_segments(file.len());
    lemma_on_course(file, total);
    lemma_position(file.len(), data_segments(file.len()));
    assert(file.subrange(0, file.len() as int) =~= file);
}

/// The segments of a session are numbered 1, 2, 3 and so on without a gap,
/// each carries the chunk of the file at its place, and the last of them,
/// and no other, is empty.
pub proof fn lemma_segments_in_order(file: Seq<u8>)
    requires
        numberable(file),
    ensures
        transfer(file).segments.len() == total_segments(file.len()),
        forall|i: int|
            0 <= i < total_segments(file.len()) ==> {
                &&& (#[trigger] transfer(file).segments[i]).segment_idx == i + 1
                &&& transfer(file).segments[i].data == chunk_at(
                    file,
                    position(file.len(), i as nat),
                )
                &&& (transfer(file).segments[i].data.len() == 0 <==> i == total_segments(
                    file.len(),
                ) - 1)
            },
{
    let len = file.len();
    let total = total_segments(len);
    lemma_on_course(file, total);
    assert forall|i: int| 0 <= i < total implies {
        &&& (#[trigger] transfer(file).segments[i]).segment_idx == i + 1
        &&& transfer(file).segments[i].data == chunk_at(file, position(len, i as nat))
        &&& (transfer(file).segments[i].data.len() == 0 <==> i == total - 1)
    } by {
        lemma_position(len, i as nat);
    }
}

/// The credit stays within its bounds and covers what is in flight: after
/// every segment of a session the sender holds at most the credit that the
/// handshake granted, which is the most it ever holds, and the segments in
/// flight and the credit left add up to that.
pub proof fn lemma_window_covers_in_flight(file: Seq<u8>, n: nat)
    requires
        numberable(file),
        n <= total_segments(file.len()),
    ensures
        after(file, 0).sender.sending_window == INITIAL_WINDOW,
        after(file, n).sender.sending_window <= INITIAL_WINDOW <= MAX_WINDOW,
        0 <= in_flight(after(file, n)) <= INITIAL_WINDOW,
        in_flight(after(file, n)) + after(file, n).sender.sending_window == INITIAL_WINDOW,
{
    lemma_on_course(file, n);
    lemma_on_course(file, 0);
    if n > 0 {
        lemma_on_course(file, (n - 1) as nat);
        lemma_step(file, (n - 1) as nat);
    }
}

/// The receiver of a session sends one acknowledgement for every
/// [`ACK_INTERVAL`] segments that carry bytes, each naming the index after
/// the last segment it answers, and then the end of the session.
pub proof fn lemma_session_replies(file: Seq<u8>)
    requires
        numberable(file),
    ensures
        transfer(file).replies.len() == data_segments(file.len()) / (ACK_INTERVAL as nat) + 1,
        forall|j: int|
            0 <= j < data_segments(file.len()) / (ACK_INTERVAL as nat) ==> #[trigger] transfer(
                file,
            ).replies[j] == nth_ack(j),
        transfer(file).replies.last() == AckOrEndView::EndSession,
{
    lemma_on_course(file, total_segments(file.len()));
}

/// An empty file is sent as one segment, the empty one, and the receiver
/// answers it with the end of the session.
pub proof fn lemma_empty_file(file: Seq<u8>)
    requires
        file.len() == 0,
    ensures
        transfer(file).segments == seq![DataView { segment_idx: 1, data: Seq::empty() }],
        transfer(file).replies == seq![AckOrEndView::EndSession],
        transfer(file).output == Seq::<u8>::empty(),
{
    reveal(data_segments);
    lemma_on_course(file, 1);
    lemma_position(0, 0);
    let t = transfer(file);
    assert(t.segments[0].data =~= Seq::empty());
    assert(t.segments =~= seq![DataView { segment_idx: 1, data: Seq::empty() }]);
    assert(t.replies =~= seq![AckOrEndView::EndSession]);
}

/// A file of a whole number of chunks is sent as that many full segments
/// and the empty one: the segment before the last is full.
pub proof fn lemma_whole_chunks(file: Seq<u8>, chunks: nat)
    requires
        numberable(file),
        chunks >= 1,
        file.len() == chunks * CHUNK_SIZE,
    ensures
        transfer(file).segments.len() == chunks + 1,
        transfer(file).segments[chunks - 1].data.len() == CHUNK_SIZE,
        transfer(file).segments[chunks as int].data.len() == 0,
{
    reveal(data_segments);
    reveal(position);
    lemma_segments_in_order(file);
    let seen = transfer(file).segments[chunks - 1];
    let last = transfer(file).segments[chunks as int];
}

/// The receiver after it has taken `frames`, in order.
pub open spec fn receiver_after(frames: Seq<DataView>) -> ReceiverView
    decreases frames.len(),
{
    if frames.len() == 0 {
        ReceiverView::init()
    } else {
        receiver_after(frames.drop_last()).received(frames.last())
    }
}

/// The frames that a receiver sends back while it takes `frames`, in order.
pub open spec fn replies_to(frames: Seq<DataView>) -> Seq<AckOrEndView>
    decreases frames.len(),
{
    if frames.len() == 0 {
        Seq::empty()
    } else {
        let before = replies_to(frames.drop_last());
        match receiver_after(frames.drop_last()).reply(frames.last()) {
            Some(reply) => before.push(reply),
            None => before,
        }
    }
}

/// A receiver answers every [`ACK_INTERVAL`] segments that carry bytes with
/// one acknowledgement, and sends nothing else: for `S` such segments it
/// sends `S / 8` acknowledgements, rounded down, each naming the index after
/// the segment that it answers.
///
/// A segment numbered 2^32 - 1 in a place where an acknowledgement is due
/// cannot be answered, and is left out.
pub proof fn lemma_ack_cadence(frames: Seq<DataView>)
    requires
        forall|i: int| 0 <= i < frames.len() ==> (#[trigger] frames[i]).data.len() > 0,
        forall|i: int|
            0 <= i < frames.len() && i % 8 == 7 ==> (#[trigger] frames[i]).segment_idx < u32::MAX,
    ensures
        replies_to(frames).len() == frames.len() / 8,
        receiver_after(frames).windowed_recv_segments == frames.len() % 8,
        forall|j: int|
            0 <= j < frames.len() / 8 ==> #[trigger] replies_to(frames)[j] == AckOrEndView::Ack(
                AckView { segment_idx: (frames[8 * j + 7].segment_idx + 1) as u32 },
            ),
    decreases frames.len(),
{
    if frames.len() > 0 {
        let before = frames.drop_last();
        let n = before.len();
        assert forall|i: int| 0 <= i < before.len() implies (#[trigger] before[i]).data.len()
            > 0 by {
            assert(before[i] == frames[i]);
        }
        assert forall|i: int| 0 <= i < before.len() && i % 8 == 7 implies (
        #[trigger] before[i]).segment_idx < u32::MAX by {
            assert(before[i] == frames[i]);
        }
        lemma_ack_cadence(before);
        lemma_cadence(n);
        let last = frames.last();
        assert(last == frames[n as int]);
        assert forall|j: int| 0 <= j < frames.len() / 8 implies #[trigger] replies_to(frames)[j]
            == AckOrEndView::Ack(
            AckView { segment_idx: (frames[8 * j + 7].segment_idx + 1) as u32 },
        ) by {
            if j < n / 8 {
                assert(replies_to(frames)[j] == replies_to(before)[j]);
                assert(before[8 * j + 7] == frames[8 * j + 7]);
            }
        }
    }
}

} // verus!
