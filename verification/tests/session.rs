use icedrop_core::endpoint::{
    AnyFrameHandlerImpl, AnyFrameHandlerResult, Endpoint, Incoming, SessionState, Turn,
};
use icedrop_core::error::SessionError;
use icedrop_core::handlers::file_transfer::{
    Chunk, FileAction, FileTransferEvent, FileTransferNextHandler, FileTransferReceivingHandler,
    CHUNK_SIZE,
};
use icedrop_core::handlers::handshake::{HandshakeHandler, HandshakeRequestFrame};
use icedrop_core::handlers::session::EndSessionHandler;
use icedrop_core::wire::{decode_frame, HEADER_LEN};

/// The sending side of a session, with the file it reads.
struct Client {
    endpoint: Endpoint,
    sender: AnyFrameHandlerImpl<FileTransferNextHandler>,
    end: AnyFrameHandlerImpl<EndSessionHandler>,
    file: Vec<u8>,
    offset: usize,
    read_size: usize,
    events: Vec<FileTransferEvent>,
    windows: Vec<u32>,
    in_flight_peak: u32,
    acknowledged: u32,
}

/// The receiving side of a session, with the file it writes.
struct Server {
    endpoint: Endpoint,
    handshake: AnyFrameHandlerImpl<HandshakeHandler>,
    receiver: AnyFrameHandlerImpl<FileTransferReceivingHandler>,
    end: AnyFrameHandlerImpl<EndSessionHandler>,
    output: Vec<u8>,
    flushes: usize,
    names: Vec<String>,
}

/// What a session left behind.
struct Outcome {
    client: Result<(), SessionError>,
    server: Result<(), SessionError>,
    output: Vec<u8>,
    flushes: usize,
    names: Vec<String>,
    data_frames: Vec<(u32, u32)>,
    acks: Vec<u32>,
    end_sessions: usize,
    responses: usize,
    events: Vec<FileTransferEvent>,
    windows: Vec<u32>,
    in_flight_peak: u32,
    bytes_sent: u64,
}

impl Client {
    fn new(file: Vec<u8>, read_size: usize) -> Client {
        let mut endpoint = Endpoint::new();
        assert_eq!(endpoint.add_handler::<FileTransferNextHandler>(), 0);
        assert_eq!(endpoint.add_handler::<EndSessionHandler>(), 1);
        Client {
            endpoint,
            sender: AnyFrameHandlerImpl { inner: FileTransferNextHandler::new() },
            end: AnyFrameHandlerImpl { inner: EndSessionHandler::new() },
            file,
            offset: 0,
            read_size,
            events: Vec::new(),
            windows: Vec::new(),
            in_flight_peak: 0,
            acknowledged: 0,
        }
    }

    fn read_chunk(&mut self) -> Chunk {
        let mut chunk = Chunk::new();
        while !chunk.is_full() {
            let wanted = chunk.remaining().min(self.read_size);
            let end = (self.offset + wanted).min(self.file.len());
            if end == self.offset {
                break;
            }
            let taken = chunk.fill(&self.file[self.offset..end]);
            assert_eq!(taken, end - self.offset);
            self.offset = end;
        }
        chunk
    }

    fn take(&mut self, incoming: Incoming) -> Result<(), SessionError> {
        let Incoming { handler, frame_type, payload, .. } = incoming;
        match handler {
            0 => {
                if frame_type == 4 {
                    let next = u32::from_le_bytes([payload[0], payload[1], payload[2], payload[3]]);
                    self.acknowledged = next - 1;
                }
                let handle = self.endpoint.handle();
                match self.sender.parse_and_handle_frame(frame_type, payload, handle) {
                    AnyFrameHandlerResult::Handled(event) => self.events.extend(event),
                    AnyFrameHandlerResult::Failed(error) => return Err(error),
                    AnyFrameHandlerResult::Skip(_) => panic!("routed to the wrong handler"),
                }
                self.windows.push(self.sender.inner.sending_window());
                while self.sender.inner.wants_segment() {
                    let chunk = self.read_chunk();
                    let event = self.sender.inner.send_segment(chunk, self.endpoint.handle())?;
                    let sent = self.sender.inner.cur_segment() - 1;
                    self.in_flight_peak = self.in_flight_peak.max(sent - self.acknowledged);
                    if event == Some(FileTransferEvent::Complete) {
                        self.endpoint.end_of_file();
                    }
                    self.events.extend(event);
                }
                Ok(())
            }
            1 => match self.end.parse_and_handle_frame(frame_type, payload, self.endpoint.handle()) {
                AnyFrameHandlerResult::Handled(()) => Ok(()),
                AnyFrameHandlerResult::Failed(error) => Err(error),
                AnyFrameHandlerResult::Skip(_) => panic!("routed to the wrong handler"),
            },
            _ => panic!("no such handler"),
        }
    }
}

impl Server {
    fn new() -> Server {
        let mut endpoint = Endpoint::new();
        assert_eq!(endpoint.add_handler::<HandshakeHandler>(), 0);
        assert_eq!(endpoint.add_handler::<FileTransferReceivingHandler>(), 1);
        assert_eq!(endpoint.add_handler::<EndSessionHandler>(), 2);
        Server {
            endpoint,
            handshake: AnyFrameHandlerImpl { inner: HandshakeHandler::new() },
            receiver: AnyFrameHandlerImpl { inner: FileTransferReceivingHandler::new() },
            end: AnyFrameHandlerImpl { inner: EndSessionHandler::new() },
            output: Vec::new(),
            flushes: 0,
            names: Vec::new(),
        }
    }

    fn take(&mut self, incoming: Incoming) -> Result<(), SessionError> {
        let Incoming { handler, frame_type, payload, .. } = incoming;
        let handle = self.endpoint.handle();
        match handler {
            0 => match self.handshake.parse_and_handle_frame(frame_type, payload, handle) {
                AnyFrameHandlerResult::Handled(name) => self.names.push(name),
                AnyFrameHandlerResult::Failed(error) => return Err(error),
                AnyFrameHandlerResult::Skip(_) => panic!("routed to the wrong handler"),
            },
            1 => match self.receiver.parse_and_handle_frame(frame_type, payload, handle) {
                AnyFrameHandlerResult::Handled(FileAction::Append(data)) => self.output.extend(data),
                AnyFrameHandlerResult::Handled(FileAction::Flush) => {
                    self.flushes += 1;
                    self.endpoint.end_of_file();
                }
                AnyFrameHandlerResult::Failed(error) => return Err(error),
                AnyFrameHandlerResult::Skip(_) => panic!("routed to the wrong handler"),
            },
            2 => match self.end.parse_and_handle_frame(frame_type, payload, handle) {
                AnyFrameHandlerResult::Handled(()) => {}
                AnyFrameHandlerResult::Failed(error) => return Err(error),
                AnyFrameHandlerResult::Skip(_) => panic!("routed to the wrong handler"),
            },
            _ => panic!("no such handler"),
        }
        Ok(())
    }
}

/// Runs a session in memory: the client sends `file`, reading at most
/// `read_size` bytes at a time, and the server stores what arrives.
fn run_session(file: &[u8], read_size: usize) -> Outcome {
    let mut client = Client::new(file.to_vec(), read_size);
    let mut server = Server::new();
    let request = HandshakeRequestFrame::new("test".to_string()).unwrap();
    client.endpoint.handle().send_frame(request).unwrap();

    let mut to_server: Vec<u8> = Vec::new();
    let mut to_client: Vec<u8> = Vec::new();
    let mut client_result: Option<Result<(), SessionError>> = None;
    let mut server_result: Option<Result<(), SessionError>> = None;
    let mut data_frames = Vec::new();
    let mut acks = Vec::new();
    let mut end_sessions = 0;
    let mut responses = 0;

    while client_result.is_none() || server_result.is_none() {
        let mut progress = false;
        if client_result.is_none() {
            match client.endpoint.run() {
                Turn::Transmit(bytes) => {
                    let (frame_type, payload) = decode_frame(&bytes).unwrap();
                    assert_eq!(bytes.len(), HEADER_LEN + payload.len());
                    if frame_type == 3 {
                        let idx = u32::from_le_bytes([payload[0], payload[1], payload[2], payload[3]]);
                        let size = u32::from_le_bytes([payload[4], payload[5], payload[6], payload[7]]);
                        assert_eq!(payload.len(), 8 + size as usize);
                        data_frames.push((idx, size));
                    }
                    to_server.extend(bytes);
                    progress = true;
                }
                Turn::Receive => {
                    let at_end = server_result.is_some();
                    match client.endpoint.handle_incoming_frames(&to_client, at_end) {
                        Ok(Some(incoming)) => {
                            assert_eq!(incoming.consumed, HEADER_LEN + incoming.payload.len());
                            to_client.drain(..incoming.consumed);
                            if let Err(error) = client.take(incoming) {
                                client.endpoint.close();
                                client_result = Some(Err(error));
                            }
                            progress = true;
                        }
                        Ok(None) => {}
                        Err(error) => {
                            client_result = Some(Err(error));
                            progress = true;
                        }
                    }
                }
                Turn::Stop => {
                    client_result = Some(Ok(()));
                    progress = true;
                }
            }
        }
        if server_result.is_none() {
            match server.endpoint.run() {
                Turn::Transmit(bytes) => {
                    let (frame_type, payload) = decode_frame(&bytes).unwrap();
                    match frame_type {
                        2 => responses += 1,
                        4 => acks.push(u32::from_le_bytes([payload[0], payload[1], payload[2], payload[3]])),
                        99 => end_sessions += 1,
                        other => panic!("the server sent a frame of type {}", other),
                    }
                    to_client.extend(bytes);
                    progress = true;
                }
                Turn::Receive => {
                    let at_end = client_result.is_some();
                    match server.endpoint.handle_incoming_frames(&to_server, at_end) {
                        Ok(Some(incoming)) => {
                            assert_eq!(incoming.consumed, HEADER_LEN + incoming.payload.len());
                            to_server.drain(..incoming.consumed);
                            if let Err(error) = server.take(incoming) {
                                server.endpoint.close();
                                server_result = Some(Err(error));
                            }
                            progress = true;
                        }
                        Ok(None) => {}
                        Err(error) => {
                            server_result = Some(Err(error));
                            progress = true;
                        }
                    }
                }
                Turn::Stop => {
                    server_result = Some(Ok(()));
                    progress = true;
                }
            }
        }
        assert!(progress, "the session is stuck");
    }
    assert_eq!(client.endpoint.state(), SessionState::Closed);
    assert_eq!(server.endpoint.state(), SessionState::Closed);
    Outcome {
        client: client_result.unwrap(),
        server: server_result.unwrap(),
        output: server.output,
        flushes: server.flushes,
        names: server.names,
        data_frames,
        acks,
        end_sessions,
        responses,
        events: client.events,
        windows: client.windows,
        in_flight_peak: client.in_flight_peak,
        bytes_sent: client.sender.inner.bytes_sent(),
    }
}

fn pattern(len: usize) -> Vec<u8> {
    (0..len).map(|i| (i * 31 + i / 524_288 + 7) as u8).collect()
}

fn assert_in_order(outcome: &Outcome, file: &[u8]) {
    assert_eq!(outcome.client, Ok(()));
    assert_eq!(outcome.server, Err(SessionError::PeerClosed));
    assert_eq!(outcome.output.len(), file.len());
    assert!(outcome.output == file);
    assert_eq!(outcome.flushes, 1);
    assert_eq!(outcome.names, vec!["test".to_string()]);
    assert_eq!(outcome.responses, 1);
    assert_eq!(outcome.end_sessions, 1);
    assert_eq!(outcome.bytes_sent, file.len() as u64);
    let full = file.len() / CHUNK_SIZE;
    let tail = file.len() % CHUNK_SIZE;
    let data = if tail > 0 { full + 1 } else { full };
    assert_eq!(outcome.data_frames.len(), data + 1);
    for (i, (idx, size)) in outcome.data_frames.iter().enumerate() {
        assert_eq!(*idx as usize, i + 1);
        let expected = if i < full {
            CHUNK_SIZE
        } else if i < data {
            tail
        } else {
            0
        };
        assert_eq!(*size as usize, expected);
    }
    assert_eq!(outcome.acks.len(), data / 8);
    for (j, next) in outcome.acks.iter().enumerate() {
        assert_eq!(*next as usize, 8 * (j + 1) + 1);
    }
    let complete = outcome.events.iter().filter(|e| **e == FileTransferEvent::Complete).count();
    assert_eq!(complete, 1);
    assert_eq!(outcome.events.last(), Some(&FileTransferEvent::Complete));
    assert_eq!(outcome.events.len(), 1 + data / 8);
    for window in &outcome.windows {
        assert!(*window <= 64);
    }
    assert!(outcome.in_flight_peak <= 8);
}

#[test]
fn empty_file() {
    let outcome = run_session(&[], 4096);
    assert_in_order(&outcome, &[]);
    assert_eq!(outcome.output, Vec::<u8>::new());
    assert_eq!(outcome.data_frames, vec![(1, 0)]);
    assert_eq!(outcome.acks, Vec::<u32>::new());
    assert_eq!(outcome.events, vec![FileTransferEvent::Complete]);
}

#[test]
fn file_of_one_byte() {
    let outcome = run_session(&[0x5A], 4096);
    assert_in_order(&outcome, &[0x5A]);
    assert_eq!(outcome.output, vec![0x5A]);
    assert_eq!(outcome.data_frames, vec![(1, 1), (2, 0)]);
    assert_eq!(outcome.acks, Vec::<u32>::new());
}

#[test]
fn file_of_one_full_chunk() {
    let file = vec![0xFF; 524_288];
    let outcome = run_session(&file, 65_536);
    assert_in_order(&outcome, &file);
    assert_eq!(outcome.data_frames, vec![(1, 524_288), (2, 0)]);
    assert_eq!(outcome.acks, Vec::<u32>::new());
    assert_eq!(outcome.events, vec![FileTransferEvent::Complete]);
    assert_eq!(outcome.bytes_sent, 524_288);
}

#[test]
fn file_of_eight_full_chunks() {
    let file = pattern(8 * 524_288);
    let outcome = run_session(&file, 1_000_000);
    assert_in_order(&outcome, &file);
    assert_eq!(outcome.data_frames.len(), 9);
    assert_eq!(outcome.data_frames[7], (8, 524_288));
    assert_eq!(outcome.data_frames[8], (9, 0));
    assert_eq!(outcome.acks, vec![9]);
    assert_eq!(
        outcome.events,
        vec![FileTransferEvent::SegmentSent(8, 4_194_304), FileTransferEvent::Complete]
    );
    assert_eq!(outcome.windows, vec![8, 8]);
    assert_eq!(outcome.in_flight_peak, 8);
}

#[test]
fn file_that_ends_inside_a_chunk() {
    let file = pattern(524_288 + 100);
    let outcome = run_session(&file, 7_777);
    assert_in_order(&outcome, &file);
    assert_eq!(outcome.data_frames, vec![(1, 524_288), (2, 100), (3, 0)]);
}

#[test]
fn file_of_seventeen_chunks_and_a_bit() {
    let file = pattern(17 * 524_288 + 1);
    let outcome = run_session(&file, 300_000);
    assert_in_order(&outcome, &file);
    assert_eq!(outcome.data_frames.len(), 19);
    assert_eq!(outcome.data_frames[17], (18, 1));
    assert_eq!(outcome.data_frames[18], (19, 0));
    assert_eq!(outcome.acks, vec![9, 17]);
    assert_eq!(
        outcome.events,
        vec![
            FileTransferEvent::SegmentSent(8, 8 * 524_288),
            FileTransferEvent::SegmentSent(16, 16 * 524_288),
            FileTransferEvent::Complete
        ]
    );
}

#[test]
fn short_reads_do_not_move_the_chunk_boundaries() {
    let file = pattern(2 * 524_288 + 3);
    for read_size in [1_000, 524_287, 524_288, 524_289, 10_000_000] {
        let outcome = run_session(&file, read_size);
        assert_in_order(&outcome, &file);
        assert_eq!(outcome.data_frames, vec![(1, 524_288), (2, 524_288), (3, 3), (4, 0)]);
    }
}
