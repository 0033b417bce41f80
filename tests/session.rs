use twist::assembler::{Assembled, AssemblyError, MessageAssembler, MessageKind};
use twist::close::{
    close_payload, close_transition, is_valid_close_code, parse_close_payload, CloseError,
    CloseEvent, CloseState, Connection, FailureKind, Mode, Reaction,
};
use twist::codec::FrameCodec;
use twist::session::{RecvStep, Session};
use twist::frame::{Frame, OpCode};
use twist::utf8::{Utf8Status, Utf8Validator};
use twist::wire::apply_mask;

fn frame(fin: bool, op: OpCode, data: &[u8]) -> Frame {
    let app = if data.is_empty() { None } else { Some(data.to_vec()) };
    Frame::from_parts(fin, false, false, false, op, false, 0, data.len() as u64, None, app)
}

#[test]
fn validator_resumes_across_chunks() {
    let mut v = Utf8Validator::new();
    let bytes = "€😀".as_bytes();
    assert_eq!(v.feed(&bytes[..1]), Utf8Status::Partial);
    assert_eq!(v.feed(&bytes[1..4]), Utf8Status::Partial);
    assert_eq!(v.feed(&bytes[4..]), Utf8Status::Complete);
    assert_eq!(v.status(), Utf8Status::Complete);
    assert_eq!(v.feed(&[0xFF]), Utf8Status::Invalid);
    assert_eq!(v.feed(b"ok"), Utf8Status::Invalid);
    v.reset();
    assert_eq!(v.status(), Utf8Status::Complete);
}

#[test]
fn single_frame_message() {
    let mut a = MessageAssembler::new();
    match a.push(frame(true, OpCode::Binary, &[1, 2, 3])) {
        Ok(Assembled::Message(m)) => {
            assert_eq!(m.kind, MessageKind::Binary);
            assert_eq!(m.data, vec![1, 2, 3]);
        }
        other => panic!("unexpected {:?}", other),
    }
}

#[test]
fn empty_text_message() {
    let mut a = MessageAssembler::new();
    match a.push(frame(true, OpCode::Text, &[])) {
        Ok(Assembled::Message(m)) => {
            assert_eq!(m.kind, MessageKind::Text);
            assert!(m.data.is_empty());
        }
        other => panic!("unexpected {:?}", other),
    }
}

#[test]
fn text_split_then_continuation() {
    // The codec reads "aé" across two chunks; a final continuation closes the message.
    let key: u32 = 0x0A0B_0C0D;
    let mut payload = "aé".as_bytes().to_vec();
    apply_mask(&mut payload, key);
    let mut codec = FrameCodec::new();
    codec.set_client(true);
    let mut buf = vec![0x01, 0x83, 0x0A, 0x0B, 0x0C, 0x0D, payload[0]];
    assert!(matches!(codec.decode(&mut buf), Ok(None)));
    buf.extend_from_slice(&payload[1..]);
    let first = codec.decode(&mut buf).unwrap().unwrap();
    let mut a = MessageAssembler::new();
    assert!(matches!(a.push(first), Ok(Assembled::Pending)));
    match a.push(frame(true, OpCode::Continuation, &[])) {
        Ok(Assembled::Message(m)) => {
            assert_eq!(m.kind, MessageKind::Text);
            assert_eq!(m.data, "aé".as_bytes().to_vec());
        }
        other => panic!("unexpected {:?}", other),
    }
}

#[test]
fn codepoint_split_across_fragments_with_ping_between() {
    let bytes = "x😀".as_bytes();
    let mut a = MessageAssembler::new();
    assert!(matches!(a.push(frame(false, OpCode::Text, &bytes[..3])), Ok(Assembled::Pending)));
    assert!(matches!(a.push(frame(true, OpCode::Ping, b"hi")), Ok(Assembled::Control(_))));
    match a.push(frame(true, OpCode::Continuation, &bytes[3..])) {
        Ok(Assembled::Message(m)) => assert_eq!(m.data, bytes.to_vec()),
        other => panic!("unexpected {:?}", other),
    }
}

#[test]
fn fragmentation_violations() {
    let mut a = MessageAssembler::new();
    assert!(matches!(a.push(frame(true, OpCode::Continuation, b"x")), Err(AssemblyError::ProtocolViolation)));
    let mut a = MessageAssembler::new();
    assert!(matches!(a.push(frame(false, OpCode::Binary, b"x")), Ok(Assembled::Pending)));
    assert!(matches!(a.push(frame(true, OpCode::Text, b"y")), Err(AssemblyError::ProtocolViolation)));
}

#[test]
fn text_message_utf8_errors() {
    let mut a = MessageAssembler::new();
    assert!(matches!(a.push(frame(false, OpCode::Text, &[0xFF])), Err(AssemblyError::InvalidUtf8)));
    let mut a = MessageAssembler::new();
    assert!(matches!(a.push(frame(false, OpCode::Text, &[0xE2, 0x82])), Ok(Assembled::Pending)));
    assert!(matches!(a.push(frame(true, OpCode::Continuation, &[])), Err(AssemblyError::InvalidUtf8)));
}

#[test]
fn close_table() {
    assert_eq!(close_transition(CloseState::Open, CloseEvent::SendClose), CloseState::LocalClosing);
    assert_eq!(close_transition(CloseState::Open, CloseEvent::RecvClose), CloseState::RemoteClosing);
    assert_eq!(close_transition(CloseState::Open, CloseEvent::RecvOther), CloseState::Open);
    assert_eq!(close_transition(CloseState::LocalClosing, CloseEvent::SendClose), CloseState::LocalClosing);
    assert_eq!(close_transition(CloseState::LocalClosing, CloseEvent::RecvClose), CloseState::Closed);
    assert_eq!(close_transition(CloseState::RemoteClosing, CloseEvent::SendClose), CloseState::Closed);
    assert_eq!(close_transition(CloseState::RemoteClosing, CloseEvent::RecvClose), CloseState::RemoteClosing);
    assert_eq!(close_transition(CloseState::Closed, CloseEvent::SendClose), CloseState::Closed);
    assert_eq!(close_transition(CloseState::Closed, CloseEvent::RecvOther), CloseState::Closed);
}

#[test]
fn close_codes() {
    assert!(is_valid_close_code(1000));
    assert!(is_valid_close_code(1011));
    assert!(!is_valid_close_code(999));
    assert!(!is_valid_close_code(0));
    for c in [1004, 1005, 1006, 1015] {
        assert!(!is_valid_close_code(c));
    }
}

#[test]
fn close_payloads() {
    let p = close_payload(1001, b"bye");
    assert_eq!(p, vec![0x03, 0xE9, b'b', b'y', b'e']);
    assert_eq!(parse_close_payload(&p), Ok(Some((1001, b"bye".to_vec()))));
    assert_eq!(parse_close_payload(&[]), Ok(None));
    assert_eq!(parse_close_payload(&[0x03]), Err(CloseError::ProtocolViolation));
    assert_eq!(parse_close_payload(&[0x03, 0xED]), Err(CloseError::ProtocolViolation));
    assert_eq!(parse_close_payload(&[0x03, 0xE8, 0xFF]), Err(CloseError::InvalidUtf8));
}

#[test]
fn ping_is_answered_with_same_payload() {
    let mut c = Connection::new(Mode::Server);
    match c.on_frame(frame(true, OpCode::Ping, b"abc")) {
        Reaction::Pong(p) => assert_eq!(p, b"abc".to_vec()),
        other => panic!("unexpected {:?}", other),
    }
    assert!(matches!(c.on_frame(frame(true, OpCode::Pong, b"")), Reaction::Ignore));
    assert!(matches!(c.on_frame(frame(true, OpCode::Text, b"t")), Reaction::Data(_)));
}

#[test]
fn peer_close_is_echoed() {
    let mut c = Connection::new(Mode::Client);
    let payload = close_payload(1000, b"");
    match c.on_frame(frame(true, OpCode::Close, &payload)) {
        Reaction::Closed { reply, code, reason } => {
            assert!(reply);
            assert_eq!(code, Some(1000));
            assert!(reason.is_empty());
        }
        other => panic!("unexpected {:?}", other),
    }
    assert_eq!(c.state(), CloseState::Closed);
    assert!(matches!(c.on_frame(frame(true, OpCode::Ping, b"")), Reaction::Ignore));
}

#[test]
fn local_close_then_peer_close() {
    let mut c = Connection::new(Mode::Server);
    assert!(c.send_close());
    assert_eq!(c.state(), CloseState::LocalClosing);
    assert!(!c.send_close());
    assert!(matches!(c.on_frame(frame(true, OpCode::Text, b"late")), Reaction::Ignore));
    match c.on_frame(frame(true, OpCode::Close, &[])) {
        Reaction::Closed { reply, code, .. } => {
            assert!(!reply);
            assert_eq!(code, None);
        }
        other => panic!("unexpected {:?}", other),
    }
    assert_eq!(c.state(), CloseState::Closed);
}

#[test]
fn bad_close_code_fails_connection() {
    let mut c = Connection::new(Mode::Server);
    assert!(matches!(c.on_frame(frame(true, OpCode::Close, &[0x03, 0xEE])), Reaction::Fail(1002)));
    assert_eq!(c.state(), CloseState::Closed);
    let mut c = Connection::new(Mode::Server);
    assert_eq!(c.fail(FailureKind::InvalidUtf8), 1007);
    assert_eq!(c.fail(FailureKind::MessageTooBig), 1009);
}

#[test]
fn outbound_frames_follow_mode() {
    let client = Connection::new(Mode::Client);
    let f = client.outbound_frame(OpCode::Text, true, b"hi".to_vec(), 0x1234_5678);
    assert!(f.masked());
    assert_eq!(f.mask(), 0x1234_5678);
    assert_eq!(f.payload_length(), 2);
    let server = Connection::new(Mode::Server);
    let f = server.outbound_frame(OpCode::Binary, true, Vec::new(), 0x1234_5678);
    assert!(!f.masked());
    assert_eq!(f.mask(), 0);
    assert!(f.application_data().is_none());
}

fn masked_frame_bytes(op: OpCode, fin: bool, data: &[u8], key: u32) -> Vec<u8> {
    let app = if data.is_empty() { None } else { Some(data.to_vec()) };
    let f = Frame::from_parts(fin, false, false, false, op, true, key, data.len() as u64, None, app);
    let mut out = Vec::new();
    FrameCodec::new().encode(f, &mut out);
    out
}

#[test]
fn session_reads_fragmented_text_with_ping() {
    let mut s = Session::new(Mode::Server, 0, 1 << 20);
    let mut buf = Vec::new();
    buf.extend(masked_frame_bytes(OpCode::Text, false, b"hel", 0x11223344));
    buf.extend(masked_frame_bytes(OpCode::Ping, true, b"p", 0x55667788));
    buf.extend(masked_frame_bytes(OpCode::Continuation, true, b"lo", 0x99AABBCC));
    assert!(matches!(s.step(&mut buf), RecvStep::Progress));
    match s.step(&mut buf) {
        RecvStep::SendPong(p) => assert_eq!(p, b"p".to_vec()),
        other => panic!("unexpected {:?}", other),
    }
    match s.step(&mut buf) {
        RecvStep::Message(m) => {
            assert_eq!(m.kind, MessageKind::Text);
            assert_eq!(m.data, b"hello".to_vec());
        }
        other => panic!("unexpected {:?}", other),
    }
    assert!(matches!(s.step(&mut buf), RecvStep::NeedMore));
}

#[test]
fn session_fails_on_unmasked_client_frame() {
    let mut s = Session::new(Mode::Server, 0, 1 << 20);
    let mut buf = vec![0x81, 0x05, b'H', b'e', b'l', b'l', b'o'];
    assert!(matches!(s.step(&mut buf), RecvStep::Fail(1002)));
    assert_eq!(s.state(), CloseState::Closed);
}

#[test]
fn session_fails_on_bad_text() {
    let mut s = Session::new(Mode::Server, 0, 1 << 20);
    let mut buf = masked_frame_bytes(OpCode::Text, true, &[0xC3, 0x28], 0x01020304);
    assert!(matches!(s.step(&mut buf), RecvStep::Fail(1007)));
}

#[test]
fn message_over_limit_fails() {
    let mut a = MessageAssembler::with_limit(4);
    assert!(matches!(a.push(frame(false, OpCode::Binary, b"abc")), Ok(Assembled::Pending)));
    assert!(matches!(a.push(frame(true, OpCode::Continuation, b"de")), Err(AssemblyError::MessageTooBig)));
    let mut s = Session::new(Mode::Server, 0, 4);
    let mut buf = masked_frame_bytes(OpCode::Binary, true, b"12345", 0x01020304);
    assert!(matches!(s.step(&mut buf), RecvStep::Fail(1009)));
}

#[test]
fn session_reports_peer_close_and_drops_later_frames() {
    let mut s = Session::new(Mode::Server, 0, 1 << 20);
    let mut buf = Vec::new();
    buf.extend(masked_frame_bytes(OpCode::Close, true, &close_payload(1000, b"done"), 0x0F0E0D0C));
    buf.extend(masked_frame_bytes(OpCode::Text, true, b"late", 0x01020304));
    match s.step(&mut buf) {
        RecvStep::Closed { reply, code, reason } => {
            assert!(reply);
            assert_eq!(code, Some(1000));
            assert_eq!(reason, b"done".to_vec());
        }
        other => panic!("unexpected {:?}", other),
    }
    assert_eq!(s.state(), CloseState::Closed);
    assert!(matches!(s.step(&mut buf), RecvStep::Progress));
    assert!(buf.is_empty());
}
