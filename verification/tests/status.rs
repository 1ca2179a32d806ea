use kubecraft_proxy::codec::{read_string, read_var_int};
use kubecraft_proxy::handshake::NextState;
use kubecraft_proxy::status::{backend_not_found_packet, Status};

#[test]
fn test_login_rejection_bytes_exact() {
    // Frame: len 30, packet id 0, string of 28 bytes.
    let frame = backend_not_found_packet(NextState::Login);
    let mut expected = vec![0x1e, 0x00, 0x1c];
    expected.extend_from_slice(b"{\"text\":\"Backend not found\"}");
    assert_eq!(frame, expected);
}

#[test]
fn test_login_rejection_json() {
    let frame = backend_not_found_packet(NextState::Login);
    let (len, p) = read_var_int(&frame, 0).unwrap();
    assert_eq!(len as usize, frame.len() - p);
    let (id, p) = read_var_int(&frame, p).unwrap();
    assert_eq!(id, 0);
    let (json, end) = read_string(&frame, p).unwrap();
    assert_eq!(json, "{\"text\":\"Backend not found\"}");
    assert_eq!(end, frame.len());
}

#[test]
fn test_status_rejection_json() {
    let frame = backend_not_found_packet(NextState::Status);
    let (len, p) = read_var_int(&frame, 0).unwrap();
    assert_eq!(len as usize, frame.len() - p);
    let (id, p) = read_var_int(&frame, p).unwrap();
    assert_eq!(id, 0);
    let (json, end) = read_string(&frame, p).unwrap();
    assert_eq!(
        json,
        "{\"version\":{\"name\":\"\",\"protocol\":-1},\"players\":{\"max\":0,\"online\":0,\"sample\":[]},\"description\":{\"text\":\"Backend not found\"}}"
    );
    assert_eq!(end, frame.len());
}

#[test]
fn test_write_as_text_carries_reason() {
    let status = Status::from_error("gone fishing".to_string());
    let mut out = Vec::new();
    status.write_as_text(&mut out);
    let (_, p) = read_var_int(&out, 0).unwrap();
    let (id, p) = read_var_int(&out, p).unwrap();
    assert_eq!(id, 0);
    let (json, _) = read_string(&out, p).unwrap();
    assert_eq!(json, "{\"text\":\"gone fishing\"}");
}

#[test]
fn test_write_as_motd_carries_reason() {
    let status = Status::from_error("gone fishing".to_string());
    let mut out = Vec::new();
    status.write_as_motd(&mut out);
    let (_, p) = read_var_int(&out, 0).unwrap();
    let (id, p) = read_var_int(&out, p).unwrap();
    assert_eq!(id, 0);
    let (json, _) = read_string(&out, p).unwrap();
    assert_eq!(
        json,
        "{\"version\":{\"name\":\"\",\"protocol\":-1},\"players\":{\"max\":0,\"online\":0,\"sample\":[]},\"description\":{\"text\":\"gone fishing\"}}"
    );
}

#[test]
fn test_write_as_picks_variant_by_next_state() {
    let status = Status::from_error("r".to_string());
    let mut login = Vec::new();
    status.write_as(NextState::Login, &mut login);
    let mut text = Vec::new();
    status.write_as_text(&mut text);
    assert_eq!(login, text);

    let mut ping = Vec::new();
    status.write_as(NextState::Status, &mut ping);
    let mut motd = Vec::new();
    status.write_as_motd(&mut motd);
    assert_eq!(ping, motd);
}
