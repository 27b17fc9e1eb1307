use palworld_server::packet::{decode_frame, Packet, PacketKind};
use palworld_server::session::{
    auth_packet, check_auth_response, collect_quirks, command_packet, next_request_id,
    response_text, PalworldRCON, Reassembly, ReassemblyMode,
};
use palworld_server::{RconError, DEFAULT_SOURCE_PORT};

fn response(id: i32, body: &[u8]) -> Packet {
    Packet {
        id,
        kind: PacketKind::ResponseValue,
        body: body.to_vec(),
    }
}

#[test]
fn endpoint_holds_coordinates() {
    let rcon = PalworldRCON::new("localhost", DEFAULT_SOURCE_PORT, "MyRCONPassword");
    assert_eq!(rcon.host, "localhost");
    assert_eq!(rcon.port, 25575);
    assert_eq!(rcon.password, "MyRCONPassword");
}

#[test]
fn endpoint_default_port() {
    let rcon = PalworldRCON::new_with_default_port("localhost", None, "pw");
    assert_eq!(rcon.port, DEFAULT_SOURCE_PORT);
    let rcon = PalworldRCON::new_with_default_port("localhost", Some(2222), "pw");
    assert_eq!(rcon.port, 2222);
}

#[test]
fn request_ids_increase_and_skip_minus_one() {
    assert_eq!(next_request_id(5), 6);
    assert_eq!(next_request_id(0), 1);
    assert_eq!(next_request_id(-2), 0);
    assert_eq!(next_request_id(i32::MAX), i32::MIN);
    assert_eq!(next_request_id(i32::MIN), i32::MIN + 1);
}

#[test]
fn auth_failure_is_authentication_error() {
    // the server echoes id -1 on a bad credential
    let p = response(-1, b"");
    match check_auth_response(&p) {
        Err(RconError::Authentication) => {}
        other => panic!("expected AuthenticationError, got {:?}", other),
    }
}

#[test]
fn auth_success_on_echoed_id() {
    let p = response(17, b"");
    assert!(check_auth_response(&p).is_ok());
}

#[test]
fn auth_packet_frames_the_credential() {
    let frame = auth_packet(1, "secret").expect("frame");
    let (p, n) = decode_frame(&frame).unwrap().unwrap();
    assert_eq!(n, frame.len());
    assert_eq!(p.id, 1);
    // Auth shares its wire code with AuthResponse
    assert!(matches!(p.kind, PacketKind::AuthResponse));
    assert_eq!(p.body, b"secret".to_vec());
}

#[test]
fn command_packet_frames_the_command() {
    let frame = command_packet(2, "info").expect("frame");
    let (p, n) = decode_frame(&frame).unwrap().unwrap();
    assert_eq!(n, frame.len());
    assert_eq!(p.id, 2);
    assert!(matches!(p.kind, PacketKind::ExecCommand));
    assert_eq!(p.body, b"info".to_vec());
}

#[test]
fn quirks_reassembly_concatenates_until_empty() {
    // bodies "foo", "bar", "" sharing one id reassemble to "foobar"
    let ps = vec![response(9, b"foo"), response(9, b"bar"), response(9, b"")];
    let bytes = collect_quirks(9, &ps);
    let text = response_text(bytes).unwrap();
    assert_eq!(text, "foobar");
}

#[test]
fn quirks_reassembly_ignores_other_ids() {
    let ps = vec![
        response(9, b"foo"),
        response(8, b"noise"),
        response(9, b"bar"),
        response(9, b""),
        response(9, b"late"),
    ];
    let bytes = collect_quirks(9, &ps);
    assert_eq!(bytes, b"foobar".to_vec());
}

#[test]
fn quirks_reassembly_stops_at_empty_marker() {
    let ps = vec![response(4, b""), response(4, b"after")];
    let bytes = collect_quirks(4, &ps);
    assert_eq!(bytes, Vec::<u8>::new());
}

#[test]
fn reassembly_step_quirks_mode() {
    let mut rsm = Reassembly::new(ReassemblyMode::Quirks, 3);
    assert!(!rsm.done);
    rsm.step(&response(3, b"one"));
    assert!(!rsm.done);
    rsm.step(&response(5, b"other"));
    assert!(!rsm.done);
    assert_eq!(rsm.collected, b"one".to_vec());
    rsm.step(&response(3, b""));
    assert!(rsm.done);
    assert_eq!(rsm.collected, b"one".to_vec());
}

#[test]
fn reassembly_single_mode_takes_first_match() {
    let mut rsm = Reassembly::new(ReassemblyMode::Single, 3);
    rsm.step(&response(2, b"other"));
    assert!(!rsm.done);
    rsm.step(&response(3, b"whole"));
    assert!(rsm.done);
    assert_eq!(rsm.collected, b"whole".to_vec());
}

#[test]
fn reassembly_idle_timeout_completes() {
    let mut rsm = Reassembly::new(ReassemblyMode::Quirks, 3);
    rsm.step(&response(3, b"part"));
    rsm.finish_on_idle();
    assert!(rsm.done);
    assert_eq!(rsm.collected, b"part".to_vec());
}

#[test]
fn response_text_decodes_utf8() {
    let text = response_text(b"pal server".to_vec()).unwrap();
    assert_eq!(text, "pal server");
}

#[test]
fn response_text_rejects_invalid_utf8() {
    match response_text(vec![0xFF, 0xFE]) {
        Err(RconError::Protocol) => {}
        other => panic!("expected ProtocolError, got {:?}", other),
    }
}

#[test]
fn repeated_reassembly_is_deterministic() {
    // the library side of idempotence: equal packet sequences, equal text
    let make = || vec![response(1, b"Welcome"), response(1, b"")];
    let a = collect_quirks(1, &make());
    let b = collect_quirks(1, &make());
    assert_eq!(a, b);
}
