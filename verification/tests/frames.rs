use icedrop_core::error::SessionError;
use icedrop_core::handlers::file_transfer::{
    Chunk, FileTransferAckFrame, FileTransferAckOrEndFrame, FileTransferDataFrame,
    FileTransferNextFrame, CHUNK_SIZE, FILE_TRANSFER_ACK, FILE_TRANSFER_DATA,
};
use icedrop_core::handlers::handshake::{
    HandshakeRequestFrame, HandshakeResponseFrame, HANDSHAKE_REQUEST, HANDSHAKE_RESPONSE,
};
use icedrop_core::handlers::session::{EndSessionFrame, END_SESSION};
use icedrop_core::proto::{Frame, FrameParsingResult};

fn parsed<F: Frame>(result: FrameParsingResult<F>) -> F {
    match result {
        FrameParsingResult::Parsed(frame) => frame,
        FrameParsingResult::Skip(_) => panic!("skipped"),
        FrameParsingResult::Failed(error) => panic!("failed: {:?}", error),
    }
}

fn failed<F: Frame>(result: FrameParsingResult<F>) -> SessionError {
    match result {
        FrameParsingResult::Failed(error) => error,
        FrameParsingResult::Parsed(_) => panic!("parsed"),
        FrameParsingResult::Skip(_) => panic!("skipped"),
    }
}

fn skipped<F: Frame>(result: FrameParsingResult<F>) -> Vec<u8> {
    match result {
        FrameParsingResult::Skip(buf) => buf,
        FrameParsingResult::Parsed(_) => panic!("parsed"),
        FrameParsingResult::Failed(error) => panic!("failed: {:?}", error),
    }
}

fn data_frame(segment_idx: u32, data: &[u8]) -> FileTransferDataFrame {
    FileTransferDataFrame::new(segment_idx, Chunk::from_vec(data.to_vec()).unwrap())
}

#[test]
fn frame_types_are_those_of_the_protocol() {
    assert_eq!(HANDSHAKE_REQUEST, 1);
    assert_eq!(HANDSHAKE_RESPONSE, 2);
    assert_eq!(FILE_TRANSFER_DATA, 3);
    assert_eq!(FILE_TRANSFER_ACK, 4);
    assert_eq!(END_SESSION, 99);
    assert_eq!(HandshakeRequestFrame::new("a".to_string()).unwrap().frame_type(), 1);
    assert_eq!(HandshakeResponseFrame.frame_type(), 2);
    assert_eq!(data_frame(1, &[1]).frame_type(), 3);
    assert_eq!(FileTransferAckFrame::new(1).frame_type(), 4);
    assert_eq!(EndSessionFrame.frame_type(), 99);
}

#[test]
fn declared_frame_types() {
    assert_eq!(HandshakeRequestFrame::frame_types(), vec![1]);
    assert_eq!(HandshakeResponseFrame::frame_types(), vec![2]);
    assert_eq!(FileTransferDataFrame::frame_types(), vec![3]);
    assert_eq!(FileTransferAckFrame::frame_types(), vec![4]);
    assert_eq!(EndSessionFrame::frame_types(), vec![99]);
    assert_eq!(FileTransferNextFrame::frame_types(), vec![2, 4]);
    assert_eq!(FileTransferAckOrEndFrame::frame_types(), vec![4, 99]);
}

#[test]
fn unwrap_buf_gives_the_skipped_payload() {
    let result: FrameParsingResult<EndSessionFrame> = FrameParsingResult::Skip(vec![1, 2, 3]);
    assert_eq!(result.unwrap_buf(), vec![1, 2, 3]);
}

#[test]
fn ack_to_bytes_is_the_index_little_endian() {
    assert_eq!(FileTransferAckFrame::new(9).to_bytes(), vec![9, 0, 0, 0]);
    assert_eq!(FileTransferAckFrame::new(0x0102_0304).to_bytes(), vec![4, 3, 2, 1]);
    assert_eq!(FileTransferAckFrame::new(u32::MAX).to_bytes(), vec![255, 255, 255, 255]);
}

#[test]
fn ack_parses_the_index() {
    let frame = parsed(FileTransferAckFrame::try_parse(4, vec![9, 0, 0, 0]));
    assert_eq!(frame.segment_idx(), 9);
    let frame = parsed(FileTransferAckFrame::try_parse(4, vec![4, 3, 2, 1]));
    assert_eq!(frame.segment_idx(), 0x0102_0304);
    let frame = parsed(FileTransferAckFrame::try_parse(4, vec![1, 0, 0, 0, 77, 78]));
    assert_eq!(frame.segment_idx(), 1);
}

#[test]
fn ack_with_short_payload_is_a_parse_error() {
    for n in 0..4 {
        assert_eq!(failed(FileTransferAckFrame::try_parse(4, vec![1; n])), SessionError::Parse);
    }
}

#[test]
fn ack_skips_other_frame_types() {
    for frame_type in [0u16, 1, 2, 3, 5, 99, u16::MAX] {
        assert_eq!(skipped(FileTransferAckFrame::try_parse(frame_type, vec![1, 2])), vec![1, 2]);
    }
}

#[test]
fn data_to_bytes_is_index_size_and_bytes() {
    assert_eq!(data_frame(1, &[0x5A]).to_bytes(), vec![1, 0, 0, 0, 1, 0, 0, 0, 0x5A]);
    assert_eq!(data_frame(2, &[]).to_bytes(), vec![2, 0, 0, 0, 0, 0, 0, 0]);
    assert_eq!(
        data_frame(0x0A0B_0C0D, &[1, 2, 3]).to_bytes(),
        vec![0x0D, 0x0C, 0x0B, 0x0A, 3, 0, 0, 0, 1, 2, 3]
    );
}

#[test]
fn data_of_a_full_chunk_declares_the_chunk_size() {
    let frame = data_frame(7, &vec![0xFF; CHUNK_SIZE]);
    assert_eq!(frame.chunk_size(), 524_288);
    let bytes = frame.to_bytes();
    assert_eq!(bytes.len(), 8 + 524_288);
    assert_eq!(&bytes[..8], &[7, 0, 0, 0, 0x00, 0x00, 0x08, 0x00]);
}

#[test]
fn data_parses_index_size_and_bytes() {
    let frame = parsed(FileTransferDataFrame::try_parse(3, vec![5, 0, 0, 0, 2, 0, 0, 0, 8, 9]));
    assert_eq!(frame.segment_idx(), 5);
    assert_eq!(frame.chunk_size(), 2);
    assert_eq!(frame.data(), &vec![8, 9]);
}

#[test]
fn data_ignores_what_follows_the_declared_bytes() {
    let frame = parsed(FileTransferDataFrame::try_parse(3, vec![5, 0, 0, 0, 1, 0, 0, 0, 8, 9, 10]));
    assert_eq!(frame.chunk_size(), 1);
    assert_eq!(frame.data(), &vec![8]);
}

#[test]
fn data_with_fewer_bytes_than_declared_is_a_parse_error() {
    assert_eq!(
        failed(FileTransferDataFrame::try_parse(3, vec![5, 0, 0, 0, 3, 0, 0, 0, 8, 9])),
        SessionError::Parse
    );
    assert_eq!(
        failed(FileTransferDataFrame::try_parse(3, vec![5, 0, 0, 0, 0xFF, 0xFF, 0xFF, 0xFF])),
        SessionError::Parse
    );
}

#[test]
fn data_with_short_header_fields_is_a_parse_error() {
    for n in 0..8 {
        assert_eq!(failed(FileTransferDataFrame::try_parse(3, vec![0; n])), SessionError::Parse);
    }
}

#[test]
fn data_skips_other_frame_types() {
    for frame_type in [0u16, 1, 2, 4, 99] {
        let payload = vec![5, 0, 0, 0, 0, 0, 0, 0];
        assert_eq!(skipped(FileTransferDataFrame::try_parse(frame_type, payload.clone())), payload);
    }
}

#[test]
fn data_round_trips() {
    for (idx, data) in [(1u32, vec![]), (2, vec![0x5A]), (u32::MAX, vec![1, 2, 3, 4, 5])] {
        let bytes = data_frame(idx, &data).to_bytes();
        let back = parsed(FileTransferDataFrame::try_parse(3, bytes));
        assert_eq!(back, data_frame(idx, &data));
    }
}

#[test]
fn handshake_request_to_bytes_is_length_and_name() {
    let frame = HandshakeRequestFrame::new("test".to_string()).unwrap();
    assert_eq!(frame.to_bytes(), vec![4, 0, 0, 0, b't', b'e', b's', b't']);
    let frame = HandshakeRequestFrame::new(String::new()).unwrap();
    assert_eq!(frame.to_bytes(), vec![0, 0, 0, 0]);
}

#[test]
fn handshake_request_counts_bytes_not_characters() {
    let frame = HandshakeRequestFrame::new("h\u{e9}".to_string()).unwrap();
    assert_eq!(frame.to_bytes(), vec![3, 0, 0, 0, b'h', 0xC3, 0xA9]);
}

#[test]
fn handshake_request_parses_the_name() {
    let frame = parsed(HandshakeRequestFrame::try_parse(1, vec![4, 0, 0, 0, b't', b'e', b's', b't']));
    assert_eq!(frame.name(), "test");
    let frame = parsed(HandshakeRequestFrame::try_parse(1, vec![3, 0, 0, 0, b'h', 0xC3, 0xA9]));
    assert_eq!(frame.name(), "h\u{e9}");
    let frame = parsed(HandshakeRequestFrame::try_parse(1, vec![1, 0, 0, 0, b'a', b'b']));
    assert_eq!(frame.name(), "a");
    let frame = parsed(HandshakeRequestFrame::try_parse(1, vec![0, 0, 0, 0]));
    assert_eq!(frame.name(), "");
}

#[test]
fn handshake_request_with_invalid_utf8_is_a_parse_error() {
    assert_eq!(
        failed(HandshakeRequestFrame::try_parse(1, vec![2, 0, 0, 0, 0xFF, 0xFE])),
        SessionError::Parse
    );
    assert_eq!(
        failed(HandshakeRequestFrame::try_parse(1, vec![1, 0, 0, 0, 0xC3])),
        SessionError::Parse
    );
    assert_eq!(
        failed(HandshakeRequestFrame::try_parse(1, vec![3, 0, 0, 0, 0xED, 0xA0, 0x80])),
        SessionError::Parse
    );
}

#[test]
fn handshake_request_with_short_payload_is_a_parse_error() {
    for n in 0..4 {
        assert_eq!(failed(HandshakeRequestFrame::try_parse(1, vec![0; n])), SessionError::Parse);
    }
    assert_eq!(
        failed(HandshakeRequestFrame::try_parse(1, vec![5, 0, 0, 0, b't', b'e', b's', b't'])),
        SessionError::Parse
    );
}

#[test]
fn handshake_request_skips_other_frame_types() {
    assert_eq!(skipped(HandshakeRequestFrame::try_parse(2, vec![0xFF])), vec![0xFF]);
    assert_eq!(skipped(HandshakeRequestFrame::try_parse(99, Vec::new())), Vec::<u8>::new());
}

#[test]
fn handshake_response_and_end_session_are_empty() {
    assert_eq!(HandshakeResponseFrame.to_bytes(), Vec::<u8>::new());
    assert_eq!(EndSessionFrame.to_bytes(), Vec::<u8>::new());
    assert_eq!(parsed(HandshakeResponseFrame::try_parse(2, Vec::new())), HandshakeResponseFrame);
    assert_eq!(parsed(EndSessionFrame::try_parse(99, Vec::new())), EndSessionFrame);
    assert_eq!(parsed(HandshakeResponseFrame::try_parse(2, vec![1, 2])), HandshakeResponseFrame);
    assert_eq!(skipped(HandshakeResponseFrame::try_parse(99, vec![1])), vec![1]);
    assert_eq!(skipped(EndSessionFrame::try_parse(2, vec![1])), vec![1]);
}

#[test]
fn next_frame_is_a_handshake_response_or_an_ack() {
    assert_eq!(
        parsed(FileTransferNextFrame::try_parse(2, Vec::new())),
        FileTransferNextFrame::HandshakeResponseFrame(HandshakeResponseFrame)
    );
    assert_eq!(
        parsed(FileTransferNextFrame::try_parse(4, vec![9, 0, 0, 0])),
        FileTransferNextFrame::FileTransferAckFrame(FileTransferAckFrame::new(9))
    );
    assert_eq!(failed(FileTransferNextFrame::try_parse(4, vec![9])), SessionError::Parse);
    assert_eq!(skipped(FileTransferNextFrame::try_parse(99, vec![7])), vec![7]);
    assert_eq!(skipped(FileTransferNextFrame::try_parse(3, vec![7])), vec![7]);
    assert_eq!(FileTransferNextFrame::HandshakeResponseFrame(HandshakeResponseFrame).frame_type(), 2);
    let ack = FileTransferNextFrame::FileTransferAckFrame(FileTransferAckFrame::new(3));
    assert_eq!(ack.frame_type(), 4);
    assert_eq!(ack.to_bytes(), vec![3, 0, 0, 0]);
}

#[test]
fn ack_or_end_frame_is_an_ack_or_the_end() {
    assert_eq!(
        parsed(FileTransferAckOrEndFrame::try_parse(99, Vec::new())),
        FileTransferAckOrEndFrame::EndSessionFrame(EndSessionFrame)
    );
    assert_eq!(
        parsed(FileTransferAckOrEndFrame::try_parse(4, vec![17, 0, 0, 0])),
        FileTransferAckOrEndFrame::FileTransferAckFrame(FileTransferAckFrame::new(17))
    );
    assert_eq!(failed(FileTransferAckOrEndFrame::try_parse(4, Vec::new())), SessionError::Parse);
    assert_eq!(skipped(FileTransferAckOrEndFrame::try_parse(2, vec![7])), vec![7]);
    assert_eq!(FileTransferAckOrEndFrame::EndSessionFrame(EndSessionFrame).frame_type(), 99);
    assert_eq!(FileTransferAckOrEndFrame::EndSessionFrame(EndSessionFrame).to_bytes(), Vec::<u8>::new());
    let ack = FileTransferAckOrEndFrame::FileTransferAckFrame(FileTransferAckFrame::new(9));
    assert_eq!(ack.frame_type(), 4);
    assert_eq!(ack.to_bytes(), vec![9, 0, 0, 0]);
}

#[test]
fn chunk_takes_what_fits() {
    let mut chunk = Chunk::new();
    assert_eq!(chunk.len(), 0);
    assert_eq!(chunk.remaining(), 524_288);
    assert!(!chunk.is_full());
    assert_eq!(chunk.fill(&[1, 2, 3]), 3);
    assert_eq!(chunk.len(), 3);
    assert_eq!(chunk.remaining(), 524_285);
    assert_eq!(chunk.fill(&vec![9; 524_288]), 524_285);
    assert!(chunk.is_full());
    assert_eq!(chunk.remaining(), 0);
    assert_eq!(chunk.fill(&[4]), 0);
    let data = chunk.into_vec();
    assert_eq!(data.len(), 524_288);
    assert_eq!(&data[..4], &[1, 2, 3, 9]);
}

#[test]
fn chunk_from_vec_refuses_more_than_a_chunk() {
    assert!(Chunk::from_vec(vec![0; 524_288]).is_some());
    assert!(Chunk::from_vec(vec![0; 524_289]).is_none());
    assert_eq!(Chunk::from_vec(vec![1, 2]).unwrap().into_vec(), vec![1, 2]);
}
