use twist::codec::{CodecError, DecodeState, FrameCodec};
use twist::frame::{Frame, OpCode};
use twist::utf8::{scan_utf8, Utf8Status};
use twist::wire::apply_mask;

// Mask bit must be one. 2nd byte must be 0x80 or greater.
const NO_MASK: [u8; 2] = [0x89, 0x00];
// Payload on control frame must be 125 bytes or less. 2nd byte must be 0xFD or less.
const CTRL_PAYLOAD_LEN: [u8; 9] = [0x89, 0xFE, 0x10, 0x00, 0x00, 0x00, 0x00, 0x00, 0x00];
// One byte of the 2 byte header is ok.
const PARTIAL_HEADER: [u8; 1] = [0x89];
// Between 0 and 2 bytes of a 2 byte length block is ok.
const PARTIAL_LENGTH_1: [u8; 3] = [0x89, 0xFE, 0x01];
// Between 0 and 8 bytes of an 8 byte length block is ok.
const PARTIAL_LENGTH_2: [u8; 6] = [0x89, 0xFF, 0x01, 0x02, 0x03, 0x04];
// Between 0 and 4 bytes of the 4 byte mask is ok.
const PARTIAL_MASK: [u8; 6] = [0x82, 0xFE, 0x01, 0x02, 0x00, 0x00];
// Between 0 and X bytes of the X byte payload is ok.
const PARTIAL_PAYLOAD: [u8; 8] = [0x82, 0x85, 0x01, 0x02, 0x03, 0x04, 0x00, 0x00];
const PING_NO_DATA: [u8; 6] = [0x89, 0x80, 0x00, 0x00, 0x00, 0x01];

fn decode(buf: &[u8]) -> Result<Option<Frame>, CodecError> {
    let mut fc: FrameCodec = Default::default();
    fc.set_client(true);
    let mut eb = buf.to_vec();
    fc.decode(&mut eb)
}

fn decode_as(client: bool, reserved_bits: u8, buf: &[u8]) -> Result<Option<Frame>, CodecError> {
    let mut fc = FrameCodec::new();
    fc.set_client(client).set_reserved_bits(reserved_bits);
    let mut eb = buf.to_vec();
    fc.decode(&mut eb)
}

#[test]
fn decode_partial_header() {
    assert!(matches!(decode(&PARTIAL_HEADER), Ok(None)));
}

#[test]
fn decode_partial_len_1() {
    assert!(matches!(decode(&PARTIAL_LENGTH_1), Ok(None)));
}

#[test]
fn decode_partial_len_2() {
    assert!(matches!(decode(&PARTIAL_LENGTH_2), Ok(None)));
}

#[test]
fn decode_partial_mask() {
    assert!(matches!(decode(&PARTIAL_MASK), Ok(None)));
}

#[test]
fn decode_partial_payload() {
    assert!(matches!(decode(&PARTIAL_PAYLOAD), Ok(None)));
}

#[test]
fn decode_invalid_control_payload_len() {
    assert!(decode(&CTRL_PAYLOAD_LEN).is_err());
}

#[test]
fn decode_reserved() {
    // rsv1, rsv2, and rsv3.
    let reserved = [0x90, 0xa0, 0xc0];
    for res in &reserved {
        let mut buf = Vec::with_capacity(2);
        let mut first_byte = 0_u8;
        first_byte |= *res;
        buf.push(first_byte);
        buf.push(0x00);
        assert!(decode(&buf).is_err(), "rsv should not be set: {}", res);
    }
}

#[test]
fn decode_fragmented_control() {
    let second_bytes = [8, 9, 10];
    for sb in &second_bytes {
        let mut buf = Vec::with_capacity(2);
        let mut first_byte = 0_u8;
        first_byte |= *sb;
        buf.push(first_byte);
        buf.push(0x00);
        assert!(decode(&buf).is_err(), "control frame {} is marked as fragment", sb);
    }
}

#[test]
fn decode_reserved_opcodes() {
    let reserved = [3, 4, 5, 6, 7, 11, 12, 13, 14, 15];
    for res in &reserved {
        let mut buf = Vec::with_capacity(2);
        let mut first_byte = 0_u8;
        first_byte |= 0x80;
        first_byte |= *res;
        buf.push(first_byte);
        buf.push(0x00);
        assert!(decode(&buf).is_err(), "opcode {} should be reserved", res);
    }
}

#[test]
fn decode_no_mask() {
    assert!(decode(&NO_MASK).is_err(), "decoded frames should always have a mask");
}

#[test]
fn decode_ping_no_data() {
    if let Ok(Some(frame)) = decode(&PING_NO_DATA) {
        assert!(frame.fin());
        assert!(!frame.rsv1());
        assert!(!frame.rsv2());
        assert!(!frame.rsv3());
        assert!(frame.opcode() == OpCode::Ping);
        assert!(frame.payload_length() == 0);
        assert!(frame.extension_data().is_none());
        assert!(frame.application_data().is_none());
    } else {
        panic!("expected a ping frame");
    }
}

#[test]
fn ping_no_data_keeps_mask_key() {
    let frame = decode(&PING_NO_DATA).unwrap().unwrap();
    assert!(frame.masked());
    assert_eq!(frame.mask(), 0x0000_0001);
}

#[test]
fn truncated_header_leaves_state_unchanged() {
    let mut fc = FrameCodec::new();
    fc.set_client(true);
    let mut buf = vec![0x89];
    assert!(matches!(fc.decode(&mut buf), Ok(None)));
    assert_eq!(buf, vec![0x89]);
    assert_eq!(fc.state(), DecodeState::NONE);
}

#[test]
fn reserved_rsv1_is_protocol_violation() {
    assert!(matches!(decode_as(false, 0, &[0xC0, 0x00]), Err(CodecError::ProtocolViolation)));
    assert!(matches!(decode_as(false, 0, &[0x90, 0x00]), Err(CodecError::ProtocolViolation)));
}

#[test]
fn permitted_rsv1_is_accepted() {
    let frame = decode_as(false, 4, &[0xC2, 0x00]).unwrap().unwrap();
    assert!(frame.rsv1());
    assert!(!frame.rsv2());
    assert!(matches!(decode_as(false, 3, &[0xC2, 0x00]), Err(CodecError::ProtocolViolation)));
}

#[test]
fn fragmented_close_is_protocol_violation() {
    assert!(matches!(decode_as(false, 0, &[0x08, 0x00]), Err(CodecError::ProtocolViolation)));
}

#[test]
fn unmasked_client_frame_is_protocol_violation() {
    let bytes = [0x81, 0x05, b'H', b'e', b'l', b'l', b'o'];
    assert!(matches!(decode_as(true, 0, &bytes), Err(CodecError::ProtocolViolation)));
}

#[test]
fn masked_server_frame_is_protocol_violation() {
    let bytes = [0x81, 0x85, 0, 0, 0, 0, b'H', b'e', b'l', b'l', b'o'];
    assert!(matches!(decode_as(false, 0, &bytes), Err(CodecError::ProtocolViolation)));
}

#[test]
fn unmasked_server_frame_decodes() {
    let bytes = [0x81, 0x05, b'H', b'e', b'l', b'l', b'o'];
    let frame = decode_as(false, 0, &bytes).unwrap().unwrap();
    assert_eq!(frame.opcode(), OpCode::Text);
    assert_eq!(frame.application_data(), &Some(b"Hello".to_vec()));
}

#[test]
fn control_length_over_125_fails() {
    // Ping announcing 126 bytes through the 16-bit form.
    let bytes = [0x89, 0x7E, 0x00, 0x7E];
    assert!(matches!(decode_as(false, 0, &bytes), Err(CodecError::ProtocolViolation)));
    // 125 bytes is fine so far.
    assert!(matches!(decode_as(false, 0, &[0x89, 0x7D]), Ok(None)));
}

#[test]
fn high_bit_length_fails() {
    let bytes = [0x82, 0x7F, 0x80, 0, 0, 0, 0, 0, 0, 0];
    assert!(matches!(decode_as(false, 0, &bytes), Err(CodecError::ProtocolViolation)));
}

fn masked_bytes(data: &[u8], key: u32) -> Vec<u8> {
    let mut v = data.to_vec();
    apply_mask(&mut v, key);
    v
}

#[test]
fn text_split_across_chunks() {
    let key: u32 = 0x1234_5678;
    let payload = masked_bytes("aé".as_bytes(), key);
    assert_eq!(payload.len(), 3);
    let mut fc = FrameCodec::new();
    fc.set_client(true);
    let mut buf = vec![0x01, 0x83, 0x12, 0x34, 0x56, 0x78, payload[0], payload[1]];
    assert!(matches!(fc.decode(&mut buf), Ok(None)));
    buf.push(payload[2]);
    let frame = fc.decode(&mut buf).unwrap().unwrap();
    assert!(!frame.fin());
    assert_eq!(frame.opcode(), OpCode::Text);
    assert_eq!(frame.application_data(), &Some("aé".as_bytes().to_vec()));
    assert!(buf.is_empty());
}

#[test]
fn invalid_text_rejected_early() {
    let key: u32 = 0xA1B2_C3D4;
    let mut payload = vec![b'o', b'k', 0xFF];
    payload.extend(vec![b'x'; 100]);
    let wire = masked_bytes(&payload, key);
    let mut buf = vec![0x81, 0x80 | 103, 0xA1, 0xB2, 0xC3, 0xD4];
    buf.extend_from_slice(&wire[..3]);
    let mut fc = FrameCodec::new();
    fc.set_client(true);
    assert!(matches!(fc.decode(&mut buf), Err(CodecError::InvalidUtf8)));
}

#[test]
fn invalid_text_rejected_when_complete() {
    let bytes = [0x81, 0x02, 0xC0, 0x80];
    assert!(matches!(decode_as(false, 0, &bytes), Err(CodecError::InvalidUtf8)));
}

fn round_trip(len: usize, masked: bool, key: u32, opcode: OpCode) {
    let data: Vec<u8> = (0..len).map(|i| (i % 251) as u8).collect();
    let app = if len == 0 { None } else { Some(data.clone()) };
    let frame = Frame::from_parts(
        true,
        false,
        false,
        false,
        opcode,
        masked,
        if masked { key } else { 0 },
        len as u64,
        None,
        app.clone(),
    );
    let mut codec = FrameCodec::new();
    let mut wire = Vec::new();
    codec.encode(frame, &mut wire);
    if masked && len > 0 && key != 0 {
        assert_ne!(&wire[wire.len() - len..], &data[..]);
    }
    wire.extend_from_slice(&[0x89, 0x00]);
    let mut dec = FrameCodec::new();
    dec.set_client(masked);
    let out = dec.decode(&mut wire).unwrap().unwrap();
    assert_eq!(out.fin(), true);
    assert_eq!(out.opcode(), opcode);
    assert_eq!(out.masked(), masked);
    assert_eq!(out.payload_length(), len as u64);
    assert_eq!(out.application_data(), &app);
    assert_eq!(wire, vec![0x89, 0x00]);
}

#[test]
fn round_trip_boundary_lengths() {
    for len in [0usize, 1, 125, 126, 127, 65535, 65536] {
        round_trip(len, true, 0xDEAD_BEEF, OpCode::Binary);
        round_trip(len, false, 0, OpCode::Binary);
    }
    round_trip(125, true, 7, OpCode::Ping);
}

#[test]
fn encode_length_forms() {
    let mut codec = FrameCodec::new();
    let mut wire = Vec::new();
    let f = Frame::from_parts(true, false, false, false, OpCode::Binary, false, 0, 126, None, Some(vec![0; 126]));
    codec.encode(f, &mut wire);
    assert_eq!(&wire[..4], &[0x82, 0x7E, 0x00, 0x7E]);
    let mut wire = Vec::new();
    let f = Frame::from_parts(false, false, false, false, OpCode::Text, true, 0x01020304, 0x1_0000_0000, None, None);
    codec.encode(f, &mut wire);
    assert_eq!(wire, vec![0x01, 0xFF, 0, 0, 0, 1, 0, 0, 0, 0, 1, 2, 3, 4]);
    let mut wire = Vec::new();
    let f = Frame::from_parts(true, false, false, false, OpCode::Text, true, 0x01020304, 0x1_0000_0001, None, None);
    codec.encode(f, &mut wire);
    assert_eq!(&wire[2..10], &[0, 0, 0, 1, 0, 0, 0, 1]);
    // Header alone of a large frame: the decoder waits for the payload.
    let mut dec = FrameCodec::new();
    dec.set_client(true);
    assert!(matches!(dec.decode(&mut wire), Ok(None)));
    assert_eq!(dec.state(), DecodeState::MASK);
}

#[test]
fn encode_masks_payload() {
    let mut codec = FrameCodec::new();
    let mut wire = Vec::new();
    let f = Frame::from_parts(true, false, false, false, OpCode::Text, true, 0x0102_0304, 5, None, Some(b"Hello".to_vec()));
    codec.encode(f, &mut wire);
    assert_eq!(wire, vec![0x81, 0x85, 1, 2, 3, 4, b'H' ^ 1, b'e' ^ 2, b'l' ^ 3, b'l' ^ 4, b'o' ^ 1]);
}

#[test]
fn mask_symmetry() {
    let data = b"some payload bytes".to_vec();
    let once = masked_bytes(&data, 0x37FA_213D);
    assert_eq!(once[0], data[0] ^ 0x37);
    assert_eq!(once[1], data[1] ^ 0xFA);
    assert_eq!(once[2], data[2] ^ 0x21);
    assert_eq!(once[3], data[3] ^ 0x3D);
    assert_eq!(once[4], data[4] ^ 0x37);
    assert_eq!(masked_bytes(&once, 0x37FA_213D), data);
}

fn frames_of_chunks(chunks: &[Vec<u8>]) -> (Vec<(OpCode, Option<Vec<u8>>)>, bool) {
    let mut dec = FrameCodec::new();
    dec.set_client(true);
    let mut buf = Vec::new();
    let mut out = Vec::new();
    for c in chunks {
        buf.extend_from_slice(c);
        loop {
            match dec.decode(&mut buf) {
                Ok(Some(f)) => out.push((f.opcode(), f.application_data().clone())),
                Ok(None) => break,
                Err(_) => return (out, true),
            }
        }
    }
    (out, false)
}

#[test]
fn chunking_independence() {
    let mut wire = Vec::new();
    let mut codec = FrameCodec::new();
    let frames = [
        (OpCode::Text, b"hello".to_vec()),
        (OpCode::Ping, b"".to_vec()),
        (OpCode::Binary, vec![7; 300]),
        (OpCode::Text, "añb€".as_bytes().to_vec()),
    ];
    for (op, data) in frames.iter() {
        let app = if data.is_empty() { None } else { Some(data.clone()) };
        let f = Frame::from_parts(true, false, false, false, *op, true, 0x0BAD_F00D, data.len() as u64, None, app);
        codec.encode(f, &mut wire);
    }
    let whole = frames_of_chunks(&[wire.clone()]);
    assert_eq!(whole.0.len(), 4);
    assert!(!whole.1);
    let bytewise: Vec<Vec<u8>> = wire.iter().map(|b| vec![*b]).collect();
    assert_eq!(frames_of_chunks(&bytewise), whole);
    let thirds: Vec<Vec<u8>> = wire.chunks(7).map(|c| c.to_vec()).collect();
    assert_eq!(frames_of_chunks(&thirds), whole);
}

#[test]
fn utf8_scan_statuses() {
    assert_eq!(scan_utf8(b""), (Utf8Status::Complete, 0));
    assert_eq!(scan_utf8("aé".as_bytes()), (Utf8Status::Complete, 3));
    assert_eq!(scan_utf8(&[b'a', 0xC3]), (Utf8Status::Partial, 1));
    assert_eq!(scan_utf8(&[0xF0, 0x9F, 0x98]), (Utf8Status::Partial, 0));
    assert_eq!(scan_utf8("😀".as_bytes()).0, Utf8Status::Complete);
    assert_eq!(scan_utf8(&[0xC0, 0x80]).0, Utf8Status::Invalid);
    assert_eq!(scan_utf8(&[0xED, 0xA0, 0x80]).0, Utf8Status::Invalid);
    assert_eq!(scan_utf8(&[0xF4, 0x90, 0x80, 0x80]).0, Utf8Status::Invalid);
    assert_eq!(scan_utf8(&[0x80]).0, Utf8Status::Invalid);
    assert_eq!(scan_utf8(&[0xE2, 0x28]).0, Utf8Status::Invalid);
}

#[test]
fn setting_changes_keep_partial_frame() {
    let mut fc = FrameCodec::new();
    fc.set_client(true);
    // First two bytes and part of the mask of a masked ping.
    let mut buf = vec![0x89, 0x82, 0x01, 0x02];
    assert!(matches!(fc.decode(&mut buf), Ok(None)));
    assert_eq!(fc.state(), DecodeState::LENGTH);
    fc.set_client(false).set_reserved_bits(7);
    assert_eq!(fc.state(), DecodeState::LENGTH);
    buf.extend_from_slice(&[0x03, 0x04, b'h' ^ 0x01, b'i' ^ 0x02]);
    let frame = fc.decode(&mut buf).unwrap().unwrap();
    assert_eq!(frame.opcode(), OpCode::Ping);
    assert_eq!(frame.application_data(), &Some(b"hi".to_vec()));
    // The next frame is read under the new settings: unmasked, rsv1 allowed.
    let mut next = vec![0xC2, 0x00];
    let frame = fc.decode(&mut next).unwrap().unwrap();
    assert!(frame.rsv1());
    assert!(!frame.masked());
}

#[test]
fn opcode_well_formedness() {
    assert!(OpCode::Text.is_well_formed());
    assert!(OpCode::from_code(0x3).is_well_formed());
    assert!(!OpCode::Reserved(200).is_well_formed());
    assert!(!OpCode::Reserved(0x1).is_well_formed());
}
