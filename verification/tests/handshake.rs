use kubecraft_proxy::codec::WireError;
use kubecraft_proxy::handshake::{Handshake, NextState};

#[test]
fn test_read() {
    let stream = b"\x0f\x00\x6e\x09\x6c\x6f\x63\x61\x6c\x68\x6f\x73\x74\x63\xdd\x01".to_vec();

    let (handshake, _) = Handshake::read(&stream, 0).unwrap();

    assert_eq!(handshake.version(), 110);
    assert_eq!(handshake.hostname(), "localhost");
    assert_eq!(handshake.port(), 25565);
    assert_eq!(handshake.next_state(), NextState::Status);
}

#[test]
fn test_read_consumes_whole_frame() {
    let stream = b"\x0f\x00\x6e\x09\x6c\x6f\x63\x61\x6c\x68\x6f\x73\x74\x63\xdd\x01".to_vec();
    let (_, end) = Handshake::read(&stream, 0).unwrap();
    assert_eq!(end, stream.len());
}

#[test]
fn test_vector_reencodes_identically() {
    let stream = b"\x0f\x00\x6e\x09\x6c\x6f\x63\x61\x6c\x68\x6f\x73\x74\x63\xdd\x01".to_vec();
    let (handshake, _) = Handshake::read(&stream, 0).unwrap();
    let mut out = Vec::new();
    handshake.write(&mut out);
    assert_eq!(out, stream);
}

#[test]
fn test_write_read_round_trip() {
    let handshake = Handshake::new(47, "pvp.example".to_string(), 25565, NextState::Login);
    let mut bytes = Vec::new();
    handshake.write(&mut bytes);
    let (back, end) = Handshake::read(&bytes, 0).unwrap();
    assert_eq!(end, bytes.len());
    assert_eq!(back.version(), 47);
    assert_eq!(back.hostname(), "pvp.example");
    assert_eq!(back.port(), 25565);
    assert_eq!(back.next_state(), NextState::Login);
}

#[test]
fn test_set_hostname_preserves_rest() {
    let mut handshake = Handshake::new(47, "pvp.example".to_string(), 25565, NextState::Login);
    handshake.set_hostname("1.2.3.4".to_string());
    assert_eq!(handshake.version(), 47);
    assert_eq!(handshake.hostname(), "1.2.3.4");
    assert_eq!(handshake.port(), 25565);
    assert_eq!(handshake.next_state(), NextState::Login);
}

#[test]
fn test_read_rejects_wrong_packet_id() {
    // Same frame as the vector, but packet id 1.
    let stream = b"\x0f\x01\x6e\x09\x6c\x6f\x63\x61\x6c\x68\x6f\x73\x74\x63\xdd\x01".to_vec();
    match Handshake::read(&stream, 0) {
        Err(e) => assert_eq!(e, WireError::UnexpectedPacketId),
        Ok(_) => panic!("a packet id of 1 must be rejected"),
    }
}

#[test]
fn test_read_rejects_bad_next_state() {
    // Same frame as the vector, but next state 3.
    let stream = b"\x0f\x00\x6e\x09\x6c\x6f\x63\x61\x6c\x68\x6f\x73\x74\x63\xdd\x03".to_vec();
    match Handshake::read(&stream, 0) {
        Err(e) => assert_eq!(e, WireError::InvalidNextState),
        Ok(_) => panic!("a next state of 3 must be rejected"),
    }
}

#[test]
fn test_read_short_frame() {
    let stream = b"\x0f\x00\x6e".to_vec();
    match Handshake::read(&stream, 0) {
        Err(e) => assert_eq!(e, WireError::ShortRead),
        Ok(_) => panic!("a truncated frame must be rejected"),
    }
}

#[test]
fn test_next_state_codes() {
    assert_eq!(NextState::from_i32(1).unwrap(), NextState::Status);
    assert_eq!(NextState::from_i32(2).unwrap(), NextState::Login);
    assert_eq!(NextState::from_i32(0), Err(WireError::InvalidNextState));
    assert_eq!(NextState::from_i32(3), Err(WireError::InvalidNextState));
    assert_eq!(NextState::Status.to_i32(), 1);
    assert_eq!(NextState::Login.to_i32(), 2);
}
