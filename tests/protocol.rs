use ghost_monkey::{
    AppMessage, CommandResponse, ConnectionState, HandshakeKind, HandshakeProgress, ProtocolError,
    ProtocolHandler, SecureFrame,
    SecurityManager, TransportConfig, TransportError,
};

const VERIFICATION: &[u8] = b"nonce-verification";

fn authenticated() -> ProtocolHandler {
    let mut h = ProtocolHandler::new();
    h.set_state(ConnectionState::Connected);
    h.begin_handshake().unwrap();
    h.complete_handshake(VERIFICATION, VERIFICATION).unwrap();
    h
}

#[test]
fn state_predicates_by_state() {
    let states = vec![
        (ConnectionState::Disconnected, false, false, false),
        (ConnectionState::Connected, true, false, false),
        (ConnectionState::Handshaking, true, false, false),
        (ConnectionState::Authenticated, false, true, false),
        (ConnectionState::Error("x".to_string()), false, false, true),
    ];
    for (s, hs, send, err) in states {
        assert_eq!(s.can_handshake(), hs);
        assert_eq!(s.can_send_secure(), send);
        assert_eq!(s.is_error(), err);
    }
}

#[test]
fn error_blocks_everything_until_reset() {
    let mut h = authenticated();
    h.set_state(ConnectionState::Error("link lost".to_string()));
    assert!(!h.state().can_handshake());
    assert!(!h.state().can_send_secure());
    assert!(matches!(h.begin_handshake(), Err(ProtocolError::InvalidState(_))));
    assert!(matches!(h.send_command("ls"), Err(ProtocolError::InvalidState(_))));
    assert!(h.state().is_error());
    h.reset();
    assert_eq!(h.state(), &ConnectionState::Disconnected);
    assert!(!h.is_authenticated());
    h.set_state(ConnectionState::Connected);
    assert_eq!(h.begin_handshake(), Ok(()));
}

#[test]
fn second_handshake_is_serialized_or_rejected() {
    let mut h = ProtocolHandler::new();
    h.set_state(ConnectionState::Connected);
    assert_eq!(h.begin_handshake(), Ok(()));
    assert_eq!(h.begin_handshake(), Ok(()));
    assert_eq!(h.state(), &ConnectionState::Handshaking);
    assert_eq!(h.complete_handshake(VERIFICATION, VERIFICATION), Ok(()));
    assert!(h.is_authenticated());
    assert!(matches!(h.begin_handshake(), Err(ProtocolError::InvalidState(_))));
    assert!(matches!(
        h.complete_handshake(VERIFICATION, VERIFICATION),
        Err(ProtocolError::InvalidState(_))
    ));
    assert_eq!(h.state(), &ConnectionState::Authenticated);
    assert!(h.is_authenticated());
}

#[test]
fn handshake_from_disconnected_is_refused() {
    let mut h = ProtocolHandler::new();
    assert!(matches!(h.begin_handshake(), Err(ProtocolError::InvalidState(_))));
    assert_eq!(h.state(), &ConnectionState::Disconnected);
}

#[test]
fn tampered_response_fails_the_handshake() {
    let mut h = ProtocolHandler::new();
    h.set_state(ConnectionState::Connected);
    h.begin_handshake().unwrap();
    let r = h.complete_handshake(VERIFICATION, b"nonce-verificatioN");
    assert!(matches!(r, Err(ProtocolError::Security(_))));
    assert!(h.state().is_error());
    assert!(!h.is_authenticated());
    assert!(matches!(h.send_command("ls"), Err(ProtocolError::InvalidState(_))));
}

#[test]
fn short_verification_fails_the_handshake() {
    let mut h = ProtocolHandler::new();
    h.set_state(ConnectionState::Connected);
    h.begin_handshake().unwrap();
    assert!(matches!(h.complete_handshake(VERIFICATION, b""), Err(ProtocolError::Security(_))));
    assert!(h.state().is_error());
}

#[test]
fn aborted_handshake_ends_in_error() {
    let mut h = ProtocolHandler::new();
    h.set_state(ConnectionState::Connected);
    h.begin_handshake().unwrap();
    let r = h.abort_handshake(ProtocolError::Timeout("no response".to_string()));
    assert_eq!(r, Err(ProtocolError::Timeout("no response".to_string())));
    assert!(h.state().is_error());
}

#[test]
fn send_command_before_authentication_is_refused_without_io() {
    let mut h = ProtocolHandler::new();
    h.set_state(ConnectionState::Connected);
    let r = h.send_command("ls");
    assert!(matches!(r, Err(ProtocolError::InvalidState(_))));
    assert_eq!(h.state(), &ConnectionState::Connected);
}

#[test]
fn invalid_command_is_refused_before_sending() {
    let mut h = authenticated();
    assert!(matches!(h.send_command(""), Err(ProtocolError::InvalidMessage(_))));
    assert!(matches!(h.send_command(&"a".repeat(1025)), Err(ProtocolError::InvalidMessage(_))));
    let f = h.send_command("ls").unwrap();
    assert_eq!(f.nonce, 0);
}

#[test]
fn end_to_end_command_and_response() {
    let mut initiator = ProtocolHandler::new();
    let mut responder = ProtocolHandler::new();
    assert_eq!(initiator.state(), &ConnectionState::Disconnected);
    assert_eq!(responder.state(), &ConnectionState::Disconnected);
    initiator.set_state(ConnectionState::Connected);
    responder.set_state(ConnectionState::Connected);
    initiator.begin_handshake().unwrap();
    responder.begin_handshake().unwrap();
    initiator.complete_handshake(VERIFICATION, VERIFICATION).unwrap();
    responder.complete_handshake(VERIFICATION, VERIFICATION).unwrap();
    assert!(initiator.is_authenticated());
    assert!(responder.is_authenticated());

    let frame = initiator.send_command("ls").unwrap();
    let received = responder.recv_message(&frame).unwrap();
    assert_eq!(received, AppMessage::Command { command: "ls".to_string() });

    let reply = AppMessage::Response {
        success: true,
        stdout: "a\nb\n".to_string(),
        stderr: String::new(),
        exit_code: Some(0),
    };
    let frame = responder.send_message(&reply).unwrap();
    let response = initiator.recv_response(&frame).unwrap();
    assert_eq!(
        response,
        CommandResponse {
            success: true,
            stdout: "a\nb\n".to_string(),
            stderr: String::new(),
            exit_code: Some(0),
        }
    );
}

#[test]
fn error_message_becomes_failed_response() {
    let mut a = authenticated();
    let mut b = authenticated();
    let frame = b.send_message(&AppMessage::Error { message: "no such file".to_string() }).unwrap();
    let r = a.recv_response(&frame).unwrap();
    assert_eq!(r, CommandResponse::error("no such file".to_string()));
}

#[test]
fn command_in_place_of_response_is_a_violation() {
    let mut a = authenticated();
    let mut b = authenticated();
    let frame = b.send_command("whoami").unwrap();
    assert!(matches!(a.recv_response(&frame), Err(ProtocolError::ProtocolViolation(_))));
}

#[test]
fn replayed_frame_invalidates_the_session() {
    let mut a = authenticated();
    let mut b = authenticated();
    let frame = b.send_command("id").unwrap();
    assert!(a.recv_message(&frame).is_ok());
    assert!(matches!(a.recv_message(&frame), Err(ProtocolError::Security(_))));
    assert!(a.state().is_error());
    assert!(!a.is_authenticated());
}

#[test]
fn undecodable_payload_is_a_serialization_error() {
    let mut a = authenticated();
    let frame = SecureFrame { nonce: 0, payload: b"garbage".to_vec() };
    assert!(matches!(a.recv_response(&frame), Err(ProtocolError::Serialization(_))));
    assert!(a.state().is_error());
}

#[test]
fn heartbeat_timeout_moves_to_error() {
    let mut h = authenticated();
    assert_eq!(h.handle_heartbeat(true), Ok(()));
    assert!(h.is_authenticated());
    let r = h.handle_heartbeat(false);
    assert!(matches!(r, Err(ProtocolError::Timeout(_))));
    assert_eq!(h.state(), &ConnectionState::Error("heartbeat timeout".to_string()));
    assert!(matches!(h.send_command("ls"), Err(ProtocolError::InvalidState(_))));
}

#[test]
fn heartbeat_needs_a_secure_session() {
    let mut h = ProtocolHandler::new();
    assert!(matches!(h.handle_heartbeat(true), Err(ProtocolError::InvalidState(_))));
}

#[test]
fn session_nonces_advance_and_never_repeat() {
    let mut s = SecurityManager::new();
    assert!(!s.is_secure());
    let msg = AppMessage::Command { command: "ls".to_string() };
    assert!(matches!(s.send_secure_message(&msg), Err(ProtocolError::Authentication(_))));
    s.verify_handshake(b"v", b"v").unwrap();
    assert!(s.is_secure());
    let nonces: Vec<u64> = (0..5).map(|_| s.send_secure_message(&msg).unwrap().nonce).collect();
    assert_eq!(nonces, vec![0, 1, 2, 3, 4]);
    s.reset();
    assert!(!s.is_secure());
    let frame = SecureFrame { nonce: 0, payload: msg.to_bytes() };
    assert!(matches!(s.recv_secure_message(&frame), Err(ProtocolError::Authentication(_))));
}

#[test]
fn session_accepts_frames_in_order_only() {
    let mut s = SecurityManager::new();
    s.verify_handshake(b"v", b"v").unwrap();
    let msg = AppMessage::Error { message: "e".to_string() };
    let first = SecureFrame { nonce: 0, payload: msg.to_bytes() };
    assert_eq!(s.recv_secure_message(&first), Ok(msg.clone()));
    let skipped = SecureFrame { nonce: 2, payload: msg.to_bytes() };
    assert!(matches!(s.recv_secure_message(&skipped), Err(ProtocolError::Security(_))));
    assert!(!s.is_secure());
}

#[test]
fn transport_config_defaults_and_validation() {
    let c = TransportConfig::new();
    assert_eq!(c.bind_addr, "127.0.0.1:8080");
    assert_eq!(c.connect_timeout_ms, 30000);
    assert_eq!(c.io_timeout_ms, 60000);
    assert_eq!(c.max_packet_size, 1048576);
    assert_eq!(c.validate(), Ok(()));
    let c = c.with_bind_addr("10.0.0.1:9000".to_string()).with_max_packet_size(512);
    assert_eq!(c.bind_addr, "10.0.0.1:9000");
    assert_eq!(c.max_packet_size, 512);
    assert!(c.clone().with_connect_timeout(0).validate().is_err());
    assert!(c.clone().with_io_timeout(0).validate().is_err());
    assert!(c.clone().with_max_packet_size(0).validate().is_err());
    assert_eq!(c.with_io_timeout(5).validate(), Ok(()));
}

#[test]
fn state_descriptions() {
    assert_eq!(ConnectionState::Disconnected.to_string(), "Disconnected");
    assert_eq!(ConnectionState::Connected.to_string(), "Connected");
    assert_eq!(ConnectionState::Handshaking.to_string(), "Handshaking");
    assert_eq!(ConnectionState::Authenticated.to_string(), "Authenticated");
    assert_eq!(
        ConnectionState::Error("heartbeat timeout".to_string()).to_string(),
        "Error: heartbeat timeout"
    );
}

#[test]
fn frame_packs_nonce_big_endian_then_payload() {
    let f = SecureFrame { nonce: 0x0102030405060708, payload: b"hi".to_vec() };
    assert_eq!(f.to_packet(), vec![1, 2, 3, 4, 5, 6, 7, 8, b'h', b'i']);
    assert_eq!(SecureFrame::from_packet(&f.to_packet()), Ok(f));
    let empty = SecureFrame { nonce: u64::MAX, payload: Vec::new() };
    assert_eq!(SecureFrame::from_packet(&empty.to_packet()), Ok(empty));
}

#[test]
fn short_packet_is_not_a_frame() {
    assert!(matches!(
        SecureFrame::from_packet(&[0, 0, 0, 0, 0, 0, 1]),
        Err(ProtocolError::ProtocolViolation(_))
    ));
}

#[test]
fn handshake_messages_follow_the_fixed_order() {
    let mut initiator = HandshakeProgress::new(true);
    let mut responder = HandshakeProgress::new(false);
    assert_eq!(initiator.advance(HandshakeKind::Init, true), Ok(()));
    assert_eq!(responder.advance(HandshakeKind::Init, false), Ok(()));
    assert_eq!(responder.advance(HandshakeKind::Response, true), Ok(()));
    assert_eq!(initiator.advance(HandshakeKind::Response, false), Ok(()));
    assert!(!initiator.is_done());
    assert_eq!(initiator.advance(HandshakeKind::Confirm, true), Ok(()));
    assert_eq!(responder.advance(HandshakeKind::Confirm, false), Ok(()));
    assert!(initiator.is_done());
    assert!(responder.is_done());
    assert!(matches!(
        initiator.advance(HandshakeKind::Confirm, true),
        Err(ProtocolError::ProtocolViolation(_))
    ));
}

#[test]
fn handshake_message_out_of_order_is_a_violation() {
    let mut responder = HandshakeProgress::new(false);
    assert!(matches!(
        responder.advance(HandshakeKind::Confirm, false),
        Err(ProtocolError::ProtocolViolation(_))
    ));
    assert!(matches!(
        responder.advance(HandshakeKind::Init, true),
        Err(ProtocolError::ProtocolViolation(_))
    ));
    assert!(!responder.is_done());
    assert_eq!(responder.advance(HandshakeKind::Init, false), Ok(()));
}

#[test]
fn error_descriptions() {
    assert_eq!(
        ProtocolError::InvalidState("not ready".to_string()).to_string(),
        "Invalid connection state: not ready"
    );
    assert_eq!(ProtocolError::Security("bad".to_string()).to_string(), "Security error: bad");
    assert_eq!(
        ProtocolError::from_transport(TransportError::Timeout).to_string(),
        "Transport error: Connection timeout"
    );
    assert_eq!(
        TransportError::InvalidConfig("zero".to_string()).to_string(),
        "Invalid configuration: zero"
    );
    assert_eq!(TransportError::ConnectionClosed.to_string(), "Connection closed");
}

#[test]
fn good_receive_keeps_the_connection_authenticated() {
    let mut a = authenticated();
    let mut b = authenticated();
    let reply = AppMessage::Response {
        success: false,
        stdout: String::new(),
        stderr: "denied".to_string(),
        exit_code: Some(1),
    };
    let frame = b.send_message(&reply).unwrap();
    let r = a.recv_response(&frame).unwrap();
    assert!(!r.success);
    assert_eq!(a.state(), &ConnectionState::Authenticated);
    assert!(a.is_authenticated());
    let frame = b.send_message(&AppMessage::Error { message: "x".to_string() }).unwrap();
    assert_eq!(frame.nonce, 1);
    assert!(a.recv_response(&frame).is_ok());
    assert_eq!(a.state(), &ConnectionState::Authenticated);
}

#[test]
fn replayed_frame_to_recv_response_is_a_security_error() {
    let mut a = authenticated();
    let mut b = authenticated();
    let frame = b.send_message(&AppMessage::Error { message: "x".to_string() }).unwrap();
    assert!(a.recv_response(&frame).is_ok());
    assert!(matches!(a.recv_response(&frame), Err(ProtocolError::Security(_))));
    assert!(a.state().is_error());
    assert!(!a.is_authenticated());
}

#[test]
fn authenticated_state_without_session_is_an_authentication_error() {
    let mut h = ProtocolHandler::new();
    h.set_state(ConnectionState::Authenticated);
    let frame = SecureFrame { nonce: 0, payload: Vec::new() };
    assert!(matches!(h.recv_response(&frame), Err(ProtocolError::Authentication(_))));
    assert!(h.state().is_error());
}

#[test]
fn failed_handshake_names_its_reason() {
    let mut h = ProtocolHandler::new();
    h.set_state(ConnectionState::Connected);
    h.begin_handshake().unwrap();
    let _ = h.abort_handshake(ProtocolError::Timeout("t".to_string()));
    assert_eq!(h.state(), &ConnectionState::Error("Handshake failed".to_string()));
    let mut g = ProtocolHandler::new();
    g.set_state(ConnectionState::Connected);
    g.begin_handshake().unwrap();
    let _ = g.complete_handshake(b"a", b"b");
    assert_eq!(g.state(), &ConnectionState::Error("Handshake failed".to_string()));
}

#[test]
fn transport_failure_moves_to_error() {
    let mut h = authenticated();
    let e = h.transport_failed(TransportError::ConnectionClosed);
    assert_eq!(e, ProtocolError::Transport(TransportError::ConnectionClosed));
    assert_eq!(h.state(), &ConnectionState::Error("Transport failure".to_string()));
    assert!(!h.is_authenticated());
}

#[test]
fn config_errors_name_the_first_zero_setting() {
    let c = TransportConfig::new();
    assert_eq!(
        c.clone().with_io_timeout(0).validate(),
        Err("I/O timeout cannot be zero".to_string())
    );
    assert_eq!(
        c.clone().with_connect_timeout(0).with_io_timeout(0).validate(),
        Err("Connect timeout cannot be zero".to_string())
    );
    assert_eq!(
        c.with_max_packet_size(0).validate(),
        Err("Maximum packet size cannot be zero".to_string())
    );
}
