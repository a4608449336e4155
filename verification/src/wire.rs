//! The wire codec: little-endian integers, and frames as bytes.

use crate::error::SessionError;
use byteorder::{ByteOrder, LittleEndian};
use vstd::prelude::*;
use vstd::slice::slice_to_vec;

verus! {

/// The number that the first two bytes of `s` denote, low byte first.
pub open spec fn le_u16(s: Seq<u8>) -> int
    recommends
        s.len() >= 2,
{
    s[0] + 0x100 * s[1]
}

/// The number that the first four bytes of `s` denote, low byte first.
pub open spec fn le_u32(s: Seq<u8>) -> int
    recommends
        s.len() >= 4,
{
    s[0] + 0x100 * s[1] + 0x1_0000 * s[2] + 0x100_0000 * s[3]
}

/// The two bytes that denote `n`, low byte first.
pub open spec fn u16_le(n: u16) -> Seq<u8> {
    seq![(n % 0x100) as u8, (n / 0x100) as u8]
}

/// The four bytes that denote `n`, low byte first.
pub open spec fn u32_le(n: u32) -> Seq<u8> {
    seq![
        (n % 0x100) as u8,
        (n / 0x100 % 0x100) as u8,
        (n / 0x1_0000 % 0x100) as u8,
        (n / 0x100_0000) as u8,
    ]
}

/// Reading back what was written gives the number written.
pub proof fn lemma_le_u16_of_u16_le(n: u16, rest: Seq<u8>)
    ensures
        le_u16(u16_le(n) + rest) == n,
        u16_le(n).len() == 2,
{
}

/// Reading back what was written gives the number written.
pub proof fn lemma_le_u32_of_u32_le(n: u32, rest: Seq<u8>)
    ensures
        le_u32(u32_le(n) + rest) == n,
        u32_le(n).len() == 4,
{
}

/// `byteorder::LittleEndian::read_u16`: the number in the first two bytes of
/// `buf`, low byte first. It panics on a shorter buffer.
#[verifier::external_body]
pub(crate) fn read_u16(buf: &[u8]) -> (n: u16)
    requires
        buf@.len() >= 2,
    ensures
        n == le_u16(buf@),
{
    LittleEndian::read_u16(buf)
}

/// `byteorder::LittleEndian::read_u32`: the number in the first four bytes of
/// `buf`, low byte first. It panics on a shorter buffer.
#[verifier::external_body]
pub(crate) fn read_u32(buf: &[u8]) -> (n: u32)
    requires
        buf@.len() >= 4,
    ensures
        n == le_u32(buf@),
{
    LittleEndian::read_u32(buf)
}

/// `byteorder::LittleEndian::write_u16`: fills `buf` with the two bytes of
/// `n`, low byte first.
#[verifier::external_body]
pub(crate) fn write_u16(buf: &mut [u8; 2], n: u16)
    ensures
        final(buf)@ == u16_le(n),
{
    LittleEndian::write_u16(buf, n)
}

/// `byteorder::LittleEndian::write_u32`: fills `buf` with the four bytes of
/// `n`, low byte first.
#[verifier::external_body]
pub(crate) fn write_u32(buf: &mut [u8; 4], n: u32)
    ensures
        final(buf)@ == u32_le(n),
{
    LittleEndian::write_u32(buf, n)
}

/// Appends the two bytes of `n` to `out`.
pub fn put_u16(out: &mut Vec<u8>, n: u16)
    ensures
        final(out)@ == old(out)@ + u16_le(n),
{
    let mut field = [0u8; 2];
    write_u16(&mut field, n);
    out.extend_from_slice(&field);
}

/// Appends the four bytes of `n` to `out`.
pub fn put_u32(out: &mut Vec<u8>, n: u32)
    ensures
        final(out)@ == old(out)@ + u32_le(n),
{
    let mut field = [0u8; 4];
    write_u32(&mut field, n);
    out.extend_from_slice(&field);
}

/// The length of a frame's header: two bytes of type, four of payload length.
pub const HEADER_LEN: usize = 6;

/// The bytes of a frame on the wire: its type, the length of its payload,
/// both little-endian, and the payload.
pub open spec fn frame_bytes(frame_type: u16, payload: Seq<u8>) -> Seq<u8>
    recommends
        payload.len() <= u32::MAX,
{
    u16_le(frame_type) + u32_le(payload.len() as u32) + payload
}

/// The frame at the head of `stream`, as its type and payload, if the stream
/// holds all of it.
pub open spec fn decode(stream: Seq<u8>) -> Option<(u16, Seq<u8>)> {
    if HEADER_LEN <= stream.len() && HEADER_LEN + le_u32(stream.subrange(2, 6)) <= stream.len() {
        Some(
            (
                le_u16(stream) as u16,
                stream.subrange(HEADER_LEN as int, HEADER_LEN + le_u32(stream.subrange(2, 6))),
            ),
        )
    } else {
        None
    }
}

/// Whether `bytes` are one whole frame and nothing else: a header, and a
/// payload of the length that the header declares.
pub open spec fn is_whole_frame(bytes: Seq<u8>) -> bool {
    decode(bytes) matches Some((_, payload)) && bytes.len() == HEADER_LEN + payload.len()
}

/// Decoding what was encoded gives the type and the payload back, whatever
/// follows on the stream.
pub proof fn lemma_decode_frame_bytes(frame_type: u16, payload: Seq<u8>, rest: Seq<u8>)
    requires
        payload.len() <= u32::MAX,
    ensures
        frame_bytes(frame_type, payload).len() == HEADER_LEN + payload.len(),
        decode(frame_bytes(frame_type, payload) + rest) == Some((frame_type, payload)),
        rest.len() == 0 ==> is_whole_frame(frame_bytes(frame_type, payload) + rest),
{
    let n = payload.len() as u32;
    let stream = frame_bytes(frame_type, payload) + rest;
    lemma_le_u16_of_u16_le(frame_type, u32_le(n) + payload + rest);
    lemma_le_u32_of_u32_le(n, Seq::empty());
    assert(stream =~= u16_le(frame_type) + (u32_le(n) + payload + rest));
    assert(stream.subrange(2, 6) =~= u32_le(n) + Seq::<u8>::empty());
    assert(stream.subrange(6, 6 + n) =~= payload);
}

/// A stream that breaks off inside a frame holds no frame.
pub proof fn lemma_decode_truncated(frame_type: u16, payload: Seq<u8>, len: int)
    requires
        payload.len() <= u32::MAX,
        0 <= len < HEADER_LEN + payload.len(),
    ensures
        decode(frame_bytes(frame_type, payload).subrange(0, len)) is None,
{
    let n = payload.len() as u32;
    let whole = frame_bytes(frame_type, payload);
    let stream = whole.subrange(0, len);
    if len >= HEADER_LEN {
        lemma_le_u32_of_u32_le(n, Seq::empty());
        assert(stream.subrange(2, 6) =~= u32_le(n) + Seq::<u8>::empty());
    }
}

/// The bytes of a frame of type `frame_type` with payload `payload`.
pub fn encode_frame(frame_type: u16, payload: Vec<u8>) -> (out: Vec<u8>)
    requires
        payload@.len() <= u32::MAX,
    ensures
        out@ == frame_bytes(frame_type, payload@),
        is_whole_frame(out@),
{
    proof {
        lemma_decode_frame_bytes(frame_type, payload@, Seq::empty());
        assert(frame_bytes(frame_type, payload@) + Seq::<u8>::empty() =~= frame_bytes(
            frame_type,
            payload@,
        ));
    }
    let mut payload = payload;
    let mut buf: Vec<u8> = Vec::with_capacity(HEADER_LEN);
    put_u16(&mut buf, frame_type);
    put_u32(&mut buf, payload.len() as u32);
    buf.append(&mut payload);
    buf
}

/// The frame type and the payload length that a header declares.
pub fn decode_header(header: &[u8; 6]) -> (declared: (u16, u32))
    ensures
        declared.0 == le_u16(header@),
        declared.1 == le_u32(header@.subrange(2, 6)),
{
    let bytes = header.as_slice();
    let frame_type = read_u16(bytes);
    let frame_len = read_u32(&bytes[2..6]);
    (frame_type, frame_len)
}

/// Decodes the frame at the head of `stream`. A stream that ends before the
/// header or the declared payload is complete is a closed peer.
pub fn decode_frame(stream: &[u8]) -> (r: Result<(u16, Vec<u8>), SessionError>)
    ensures
        match r {
            Ok((frame_type, payload)) => decode(stream@) == Some((frame_type, payload@)),
            Err(e) => decode(stream@) is None && e == SessionError::PeerClosed,
        },
{
    if stream.len() < HEADER_LEN {
        return Err(SessionError::PeerClosed);
    }
    let frame_type = read_u16(stream);
    let frame_len = read_u32(&stream[2..6]) as usize;
    if stream.len() - HEADER_LEN < frame_len {
        return Err(SessionError::PeerClosed);
    }
    let payload = slice_to_vec(&stream[HEADER_LEN..HEADER_LEN + frame_len]);
    Ok((frame_type, payload))
}

} // verus!
