use ghost_monkey::{HandshakeKind, HandshakeMessage, HandshakeProgress, ProtocolError};

#[test]
fn confirm_encodes_tag_length_and_bytes() {
    let m = HandshakeMessage::Confirm { verification: vec![0xaa, 0xbb] };
    assert_eq!(m.to_bytes(), vec![3, 0, 0, 0, 0, 0, 0, 0, 2, 0xaa, 0xbb]);
    assert_eq!(m.kind(), HandshakeKind::Confirm);
}

#[test]
fn init_encodes_timestamp_then_fields() {
    let m = HandshakeMessage::Init { public_key: vec![7], timestamp: 258, nonce: vec![] };
    assert_eq!(
        m.to_bytes(),
        vec![1, 0, 0, 0, 0, 0, 0, 1, 2, 0, 0, 0, 0, 0, 0, 0, 1, 7, 0, 0, 0, 0, 0, 0, 0, 0]
    );
    assert_eq!(m.kind(), HandshakeKind::Init);
}

#[test]
fn handshake_messages_round_trip() {
    let samples = vec![
        HandshakeMessage::Init {
            public_key: (0..32).collect(),
            timestamp: 1_700_000_000,
            nonce: vec![9; 16],
        },
        HandshakeMessage::Response {
            public_key: (100..132).collect(),
            nonce: vec![1; 16],
            nonce_verification: vec![2; 32],
        },
        HandshakeMessage::Confirm { verification: Vec::new() },
    ];
    for m in samples {
        assert_eq!(HandshakeMessage::from_bytes(&m.to_bytes()), Ok(m));
    }
}

#[test]
fn malformed_handshake_messages_are_security_errors() {
    let good = HandshakeMessage::Response {
        public_key: vec![1, 2, 3],
        nonce: vec![4],
        nonce_verification: vec![5, 6],
    }
    .to_bytes();
    let mut trailing = good.clone();
    trailing.push(0);
    let truncated = good[..good.len() - 1].to_vec();
    let mut bad_tag = good.clone();
    bad_tag[0] = 4;
    let mut long_length = good.clone();
    long_length[8] = 200;
    for b in vec![Vec::new(), trailing, truncated, bad_tag, long_length] {
        assert!(matches!(HandshakeMessage::from_bytes(&b), Err(ProtocolError::Security(_))));
    }
}

fn response(verification: &[u8]) -> HandshakeMessage {
    HandshakeMessage::Response {
        public_key: vec![1; 32],
        nonce: vec![2; 16],
        nonce_verification: verification.to_vec(),
    }
}

#[test]
fn initiator_confirms_only_a_verified_response() {
    let mut p = HandshakeProgress::new(true);
    p.advance(HandshakeKind::Init, true).unwrap();
    let confirm = p.on_response(&response(b"ok"), b"ok", vec![9, 9]).unwrap();
    assert_eq!(confirm, HandshakeMessage::Confirm { verification: vec![9, 9] });
    assert!(p.is_done());
}

#[test]
fn initiator_rejects_a_tampered_response() {
    let mut p = HandshakeProgress::new(true);
    p.advance(HandshakeKind::Init, true).unwrap();
    let r = p.on_response(&response(b"forged"), b"ok", vec![9]);
    assert!(matches!(r, Err(ProtocolError::Security(_))));
    assert!(!p.is_done());
}

#[test]
fn response_out_of_turn_is_a_violation() {
    let mut p = HandshakeProgress::new(true);
    let r = p.on_response(&response(b"ok"), b"ok", vec![]);
    assert!(matches!(r, Err(ProtocolError::ProtocolViolation(_))));
    let mut q = HandshakeProgress::new(true);
    q.advance(HandshakeKind::Init, true).unwrap();
    let confirm = HandshakeMessage::Confirm { verification: vec![] };
    assert!(matches!(q.on_response(&confirm, b"", vec![]), Err(ProtocolError::ProtocolViolation(_))));
}

#[test]
fn responder_checks_the_confirm() {
    let mut p = HandshakeProgress::new(false);
    p.advance(HandshakeKind::Init, false).unwrap();
    p.advance(HandshakeKind::Response, true).unwrap();
    let good = HandshakeMessage::Confirm { verification: vec![5] };
    assert_eq!(p.on_confirm(&good, &[5]), Ok(()));
    assert!(p.is_done());
    let mut q = HandshakeProgress::new(false);
    q.advance(HandshakeKind::Init, false).unwrap();
    q.advance(HandshakeKind::Response, true).unwrap();
    assert!(matches!(q.on_confirm(&good, &[6]), Err(ProtocolError::Security(_))));
}
