use serial_visualizer::session::Event;
use serial_visualizer::session::Session;
use serial_visualizer::message::Message;
use serial_visualizer::telemetry::DecodeOutcome;
use serial_visualizer::telemetry::TelemetrySnapshot;

fn wire_frame(kind: u8, payload: &[u8]) -> Vec<u8> {
    let mut bytes = vec![0xFE, 0x00, 0x00, 0x00, payload.len() as u8, kind];
    bytes.extend_from_slice(payload);
    let mut checksum = 0u8;
    for byte in &bytes {
        checksum ^= *byte;
    }
    bytes.push(checksum);
    bytes
}

fn console_lines(session: &Session) -> Vec<String> {
    let log = session.console();
    let mut lines = Vec::new();
    for index in 0..log.len() {
        lines.push(log.line(index).unwrap().clone());
    }
    lines
}

fn mixed_stream() -> Vec<u8> {
    let mut stream = b"hello \n".to_vec();
    stream.extend_from_slice(&wire_frame(0, &[0x01, 0x02, 0x03]));
    stream.extend_from_slice(b"\r\n");
    stream.extend_from_slice(&wire_frame(1, &[0, 0, 0, 0, 0, 128, 0, 0, 1]));
    stream.extend_from_slice(b"\r\n");
    stream.extend_from_slice(&[0x80, 0x81, 0x82, 0x0A]);
    stream.extend_from_slice(&wire_frame(7, &[1]));
    stream.extend_from_slice(b"\r\n");
    stream.extend_from_slice(b"bye \n");
    stream
}

fn mixed_events() -> Vec<Event> {
    vec![
        Event::Line,
        Event::Frame(DecodeOutcome::Timestamp),
        Event::Frame(DecodeOutcome::Acceleration),
        Event::Frame(DecodeOutcome::UnknownType),
        Event::Line,
    ]
}

#[test]
fn new_session_is_blank() {
    let session = Session::new();
    assert_eq!(*session.snapshot(), TelemetrySnapshot::new());
    assert_eq!(session.console().len(), 0);
    assert_eq!(session.console().capacity(), 30);
    assert!(!session.tokenizer().in_frame());
    assert!(session.tokenizer().pending().is_empty());
}

#[test]
fn default_session_is_a_new_session() {
    let session = Session::default();
    assert_eq!(*session.snapshot(), TelemetrySnapshot::new());
    assert_eq!(session.console().len(), 0);
    assert!(session.tokenizer().pending().is_empty());
}

#[test]
fn lines_go_to_the_console_and_frames_to_the_snapshot() {
    let mut session = Session::new();
    let events = session.ingest(&mixed_stream());
    assert_eq!(events, mixed_events());
    assert_eq!(console_lines(&session), vec!["hello".to_string(), "\nbye".to_string()]);
    assert_eq!(session.snapshot().imu_timestamp(), 0x030201);
    assert_eq!(session.snapshot().accel(), [0, 512, 1024]);
    assert_eq!(session.snapshot().gyro(), [0, 0, 0]);
}

#[test]
fn session_does_not_depend_on_the_chunking() {
    let stream = mixed_stream();
    let mut whole = Session::new();
    let whole_events = whole.ingest(&stream);
    for size in 1..stream.len() {
        let mut session = Session::new();
        let mut events = Vec::new();
        for chunk in stream.chunks(size) {
            events.extend(session.ingest(chunk));
        }
        assert_eq!(events, whole_events, "size {}", size);
        assert_eq!(session.snapshot(), whole.snapshot());
        assert_eq!(console_lines(&session), console_lines(&whole));
        assert_eq!(session.tokenizer().pending(), whole.tokenizer().pending());
    }
}

#[test]
fn frame_with_flipped_checksum_bit_never_reaches_the_decoder() {
    let good = wire_frame(0, &[0x01, 0x02, 0x03]);
    for bit in 0..8 {
        let mut bad = good.clone();
        let last = bad.len() - 1;
        bad[last] ^= 1 << bit;
        bad.extend_from_slice(b"\r\n");
        let mut session = Session::new();
        assert_eq!(session.ingest(&bad), vec![Event::Corrupt], "bit {}", bit);
        assert_eq!(*session.snapshot(), TelemetrySnapshot::new());
    }
}

#[test]
fn frame_with_flipped_payload_bit_never_reaches_the_decoder() {
    let mut bad = wire_frame(0, &[0x01, 0x02, 0x03]);
    bad[7] ^= 0x40;
    bad.extend_from_slice(b"\r\n");
    let mut session = Session::new();
    assert_eq!(session.ingest(&bad), vec![Event::Corrupt]);
    assert_eq!(session.snapshot().imu_timestamp(), 0);
}

#[test]
fn marker_and_length_byte_in_different_feeds_still_decode() {
    let mut stream = wire_frame(0, &[0x01, 0x02, 0x03]);
    stream.extend_from_slice(b"\r\n");
    for cut in 1..=4 {
        let mut session = Session::new();
        assert_eq!(session.ingest(&stream[..cut]), Vec::<Event>::new());
        assert_eq!(
            session.ingest(&stream[cut..]),
            vec![Event::Frame(DecodeOutcome::Timestamp)],
            "cut {}",
            cut
        );
        assert_eq!(session.snapshot().imu_timestamp(), 0x030201);
    }
}

#[test]
fn grid_frame_through_the_session() {
    let mut stream = wire_frame(4, &[0u8; 192]);
    stream.extend_from_slice(b"\r\n");
    let mut session = Session::new();
    assert_eq!(session.ingest(&stream), vec![Event::Frame(DecodeOutcome::Ranging)]);
    assert_eq!(session.snapshot().tof_max_distance(), 1);
    assert_eq!(session.snapshot().tof_distance(), &[0u16; 64]);
    assert_eq!(session.snapshot().tof_confidence(), &[0u8; 64]);
}

#[test]
fn absorb_routes_one_message() {
    let mut session = Session::new();
    assert_eq!(session.absorb(&Message::TextLine("note".to_string())), Event::Line);
    assert_eq!(
        session.absorb(&Message::RawFrame(wire_frame(2, &[0, 0, 0, 1, 0, 0, 0, 0, 0]))),
        Event::Frame(DecodeOutcome::Rotation)
    );
    assert_eq!(session.absorb(&Message::RawFrame(vec![0xFE, 1, 2])), Event::Corrupt);
    assert_eq!(session.absorb(&Message::RawFrame(vec![])), Event::Frame(DecodeOutcome::Truncated));
    assert_eq!(console_lines(&session), vec!["note".to_string()]);
    assert_eq!(session.snapshot().gyro(), [2000, 0, 0]);
}

#[test]
fn console_of_the_session_drops_the_oldest_line() {
    let mut session = Session::new();
    let mut stream = Vec::new();
    for number in 0..35 {
        stream.extend_from_slice(format!("line {} \n", number).as_bytes());
    }
    let events = session.ingest(&stream);
    assert_eq!(events.len(), 35);
    let lines = console_lines(&session);
    assert_eq!(lines.len(), 30);
    assert_eq!(lines[0], "line 5");
    assert_eq!(lines[29], "line 34");
}

#[test]
fn reconnect_forgets_the_unfinished_segment_only() {
    let mut session = Session::new();
    let mut stream = b"kept \n".to_vec();
    stream.extend_from_slice(&wire_frame(0, &[5, 0, 0]));
    stream.extend_from_slice(b"\r\n");
    stream.extend_from_slice(&[0xFE, 0, 0, 0, 3, 0, 9]);
    session.ingest(&stream);
    assert!(session.tokenizer().in_frame());
    session.reconnect();
    assert!(!session.tokenizer().in_frame());
    assert!(session.tokenizer().pending().is_empty());
    assert_eq!(session.snapshot().imu_timestamp(), 5);
    assert_eq!(console_lines(&session), vec!["kept".to_string()]);
    assert_eq!(session.ingest(b"again \n"), vec![Event::Line]);
}

#[test]
fn clear_readings_sets_the_snapshot_back() {
    let mut session = Session::new();
    let mut stream = wire_frame(0, &[5, 0, 0]);
    stream.extend_from_slice(b"\r\nnote \n");
    session.ingest(&stream);
    session.clear_readings();
    assert_eq!(*session.snapshot(), TelemetrySnapshot::new());
    assert_eq!(console_lines(&session), vec!["\nnote".to_string()]);
}
