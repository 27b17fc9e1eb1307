use palworld_server::packet::{decode_frame, encode, Packet, PacketKind};
use palworld_server::RconError;

fn decode_one(bytes: &Vec<u8>) -> (Packet, usize) {
    match decode_frame(bytes) {
        Ok(Some(pair)) => pair,
        other => panic!("expected a complete frame, got {:?}", other),
    }
}

#[test]
fn encode_produces_expected_bytes() {
    let body: Vec<u8> = b"info".to_vec();
    let frame = encode(7, PacketKind::ExecCommand, &body);
    // length = 4 (id) + 4 (kind) + 4 (body) + 2 (terminators) = 14
    assert_eq!(&frame[0..4], &[14, 0, 0, 0]);
    assert_eq!(&frame[4..8], &[7, 0, 0, 0]);
    assert_eq!(&frame[8..12], &[2, 0, 0, 0]);
    assert_eq!(&frame[12..16], b"info");
    assert_eq!(&frame[16..18], &[0, 0]);
    assert_eq!(frame.len(), 18);
}

#[test]
fn encode_negative_id_little_endian() {
    let body: Vec<u8> = Vec::new();
    let frame = encode(-1, PacketKind::AuthResponse, &body);
    assert_eq!(&frame[4..8], &[0xFF, 0xFF, 0xFF, 0xFF]);
    assert_eq!(&frame[8..12], &[3, 0, 0, 0]);
}

#[test]
fn round_trip_command_packet() {
    let body: Vec<u8> = b"showplayers".to_vec();
    let frame = encode(41, PacketKind::ExecCommand, &body);
    let (p, n) = decode_one(&frame);
    assert_eq!(p.id, 41);
    assert!(matches!(p.kind, PacketKind::ExecCommand));
    assert_eq!(p.body, body);
    assert_eq!(n, frame.len());
}

#[test]
fn round_trip_negative_id() {
    let body: Vec<u8> = b"x".to_vec();
    let frame = encode(-1, PacketKind::ResponseValue, &body);
    let (p, n) = decode_one(&frame);
    assert_eq!(p.id, -1);
    assert!(matches!(p.kind, PacketKind::ResponseValue));
    assert_eq!(p.body, body);
    assert_eq!(n, frame.len());
}

#[test]
fn round_trip_extreme_ids() {
    for id in [i32::MIN, i32::MAX, 0, -2] {
        let body: Vec<u8> = Vec::new();
        let frame = encode(id, PacketKind::ExecCommand, &body);
        let (p, _) = decode_one(&frame);
        assert_eq!(p.id, id);
    }
}

#[test]
fn decode_needs_more_bytes() {
    // fewer than four bytes: not even a length prefix
    assert!(matches!(decode_frame(&vec![14, 0]), Ok(None)));
    // a plausible length, but the frame is not complete yet
    let body: Vec<u8> = b"info".to_vec();
    let mut frame = encode(7, PacketKind::ExecCommand, &body);
    frame.pop();
    assert!(matches!(decode_frame(&frame), Ok(None)));
}

#[test]
fn decode_rejects_implausible_length() {
    // declared length below the fixed overhead
    assert!(matches!(
        decode_frame(&vec![9, 0, 0, 0]),
        Err(RconError::Framing)
    ));
    // declared length above the 4096-byte bound
    assert!(matches!(
        decode_frame(&vec![1, 16, 0, 0]),
        Err(RconError::Framing)
    ));
}

#[test]
fn decode_rejects_unknown_kind() {
    let body: Vec<u8> = Vec::new();
    let mut frame = encode(1, PacketKind::ExecCommand, &body);
    frame[8] = 7; // no packet kind has wire code 7
    assert!(matches!(decode_frame(&frame), Err(RconError::Protocol)));
}

#[test]
fn decode_rejects_missing_terminators() {
    let body: Vec<u8> = b"ok".to_vec();
    let mut frame = encode(1, PacketKind::ResponseValue, &body);
    let last = frame.len() - 1;
    frame[last] = 1;
    assert!(matches!(decode_frame(&frame), Err(RconError::Protocol)));
}

#[test]
fn decode_leaves_trailing_bytes() {
    let body: Vec<u8> = b"ab".to_vec();
    let mut frame = encode(3, PacketKind::ResponseValue, &body);
    let frame_len = frame.len();
    frame.extend_from_slice(&[99, 98, 97]);
    let (p, n) = decode_one(&frame);
    assert_eq!(n, frame_len);
    assert_eq!(p.body, body);
}

#[test]
fn auth_and_auth_response_share_wire_code() {
    let body: Vec<u8> = Vec::new();
    let auth = encode(5, PacketKind::Auth, &body);
    let (p, _) = decode_one(&auth);
    // a decoded code 3 always reads as AuthResponse
    assert!(matches!(p.kind, PacketKind::AuthResponse));
}
