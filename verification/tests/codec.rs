use byteorder::{ByteOrder, LittleEndian};
use icedrop_core::error::SessionError;
use icedrop_core::wire::{decode_frame, decode_header, encode_frame, put_u16, put_u32, HEADER_LEN};

#[test]
fn header_is_six_bytes() {
    assert_eq!(HEADER_LEN, 6);
    assert_eq!(encode_frame(2, Vec::new()).len(), 6);
}

#[test]
fn encode_frame_lays_out_type_length_payload() {
    let bytes = encode_frame(4, vec![9, 0, 0, 0]);
    assert_eq!(bytes, vec![4, 0, 4, 0, 0, 0, 9, 0, 0, 0]);
}

#[test]
fn encode_frame_of_empty_payload_is_the_header() {
    assert_eq!(encode_frame(99, Vec::new()), vec![99, 0, 0, 0, 0, 0]);
    assert_eq!(encode_frame(2, Vec::new()), vec![2, 0, 0, 0, 0, 0]);
}

#[test]
fn encode_frame_writes_both_bytes_of_the_type() {
    assert_eq!(encode_frame(0x1234, vec![0xAB]), vec![0x34, 0x12, 1, 0, 0, 0, 0xAB]);
    assert_eq!(encode_frame(0xFFFF, Vec::new()), vec![0xFF, 0xFF, 0, 0, 0, 0]);
}

#[test]
fn encode_frame_writes_all_four_bytes_of_the_length() {
    let payload = vec![7u8; 0x0001_0203];
    let bytes = encode_frame(3, payload.clone());
    assert_eq!(&bytes[..6], &[3, 0, 0x03, 0x02, 0x01, 0x00]);
    assert_eq!(&bytes[6..], &payload[..]);
}

#[test]
fn put_u16_and_put_u32_append_low_byte_first() {
    let mut out = vec![0xEE];
    put_u16(&mut out, 0xBEEF);
    put_u32(&mut out, 0xDEAD_C0DE);
    assert_eq!(out, vec![0xEE, 0xEF, 0xBE, 0xDE, 0xC0, 0xAD, 0xDE]);
}

#[test]
fn put_u32_agrees_with_byteorder() {
    for n in [0u32, 1, 255, 256, 65_535, 65_536, 1_000_000, 0x7FFF_FFFF, u32::MAX] {
        let mut out = Vec::new();
        put_u32(&mut out, n);
        assert_eq!(out.len(), 4);
        assert_eq!(LittleEndian::read_u32(&out), n);
        let mut expected = [0u8; 4];
        LittleEndian::write_u32(&mut expected, n);
        assert_eq!(out, expected.to_vec());
    }
}

#[test]
fn put_u16_agrees_with_byteorder() {
    for n in [0u16, 1, 99, 255, 256, 0x7FFF, u16::MAX] {
        let mut out = Vec::new();
        put_u16(&mut out, n);
        assert_eq!(out.len(), 2);
        assert_eq!(LittleEndian::read_u16(&out), n);
    }
}

#[test]
fn decode_header_reads_little_endian() {
    assert_eq!(decode_header(&[0x63, 0x00, 0x08, 0x00, 0x08, 0x00]), (99, 0x0008_0008));
    assert_eq!(decode_header(&[0x01, 0x02, 0x04, 0x03, 0x02, 0x01]), (0x0201, 0x0102_0304));
    assert_eq!(decode_header(&[0xFF, 0xFF, 0xFF, 0xFF, 0xFF, 0xFF]), (u16::MAX, u32::MAX));
    assert_eq!(decode_header(&[0, 0, 0, 0, 0, 0]), (0, 0));
}

#[test]
fn decode_frame_gives_back_what_was_encoded() {
    let cases: Vec<(u16, Vec<u8>)> = vec![
        (1, vec![4, 0, 0, 0, b't', b'e', b's', b't']),
        (2, Vec::new()),
        (3, vec![1, 0, 0, 0, 1, 0, 0, 0, 0x5A]),
        (4, vec![9, 0, 0, 0]),
        (99, Vec::new()),
        (0, vec![0; 300]),
        (u16::MAX, (0..=255u8).collect()),
    ];
    for (frame_type, payload) in cases {
        let bytes = encode_frame(frame_type, payload.clone());
        assert_eq!(bytes.len(), 6 + payload.len());
        assert_eq!(decode_frame(&bytes), Ok((frame_type, payload)));
    }
}

#[test]
fn decode_frame_takes_the_first_frame_only() {
    let mut stream = encode_frame(3, vec![1, 2, 3]);
    stream.extend(encode_frame(4, vec![5, 0, 0, 0]));
    assert_eq!(decode_frame(&stream), Ok((3, vec![1, 2, 3])));
    assert_eq!(decode_frame(&stream[9..]), Ok((4, vec![5, 0, 0, 0])));
}

#[test]
fn decode_frame_of_truncated_stream_is_peer_closed() {
    let bytes = encode_frame(3, vec![1, 2, 3]);
    for n in 0..bytes.len() {
        assert_eq!(decode_frame(&bytes[..n]), Err(SessionError::PeerClosed));
    }
    assert_eq!(decode_frame(&bytes), Ok((3, vec![1, 2, 3])));
}

#[test]
fn decode_frame_of_empty_stream_is_peer_closed() {
    assert_eq!(decode_frame(&[]), Err(SessionError::PeerClosed));
}

#[test]
fn decode_frame_of_header_that_declares_more_than_follows_is_peer_closed() {
    assert_eq!(decode_frame(&[3, 0, 0xFF, 0xFF, 0xFF, 0xFF, 1, 2, 3]), Err(SessionError::PeerClosed));
    assert_eq!(decode_frame(&[3, 0, 4, 0, 0, 0, 1, 2, 3]), Err(SessionError::PeerClosed));
    assert_eq!(decode_frame(&[3, 0, 3, 0, 0, 0, 1, 2, 3]), Ok((3, vec![1, 2, 3])));
}
