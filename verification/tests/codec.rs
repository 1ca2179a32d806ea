use kubecraft_proxy::codec::{read_string, read_var_int, write_string, write_var_int, WireError};

// VarInt test data from the protocol's published vectors.

#[test]
fn test_read_var_int_0() {
    let stream = b"\x00".to_vec();
    let (result, _) = read_var_int(&stream, 0).unwrap();
    assert_eq!(result, 0);
}

#[test]
fn test_read_var_int_1() {
    let stream = b"\x01".to_vec();
    let (result, _) = read_var_int(&stream, 0).unwrap();
    assert_eq!(result, 1);
}

#[test]
fn test_read_var_int_2() {
    let stream = b"\x02".to_vec();
    let (result, _) = read_var_int(&stream, 0).unwrap();
    assert_eq!(result, 2);
}

#[test]
fn test_read_var_int_127() {
    let stream = b"\x7f".to_vec();
    let (result, _) = read_var_int(&stream, 0).unwrap();
    assert_eq!(result, 127);
}

#[test]
fn test_read_var_int_128() {
    let stream = b"\x80\x01".to_vec();
    let (result, _) = read_var_int(&stream, 0).unwrap();
    assert_eq!(result, 128);
}

#[test]
fn test_read_var_int_255() {
    let stream = b"\xff\x01".to_vec();
    let (result, _) = read_var_int(&stream, 0).unwrap();
    assert_eq!(result, 255);
}

#[test]
fn test_read_var_int_25565() {
    let stream = b"\xdd\xc7\x01".to_vec();
    let (result, _) = read_var_int(&stream, 0).unwrap();
    assert_eq!(result, 25565);
}

#[test]
fn test_read_var_int_2097151() {
    let stream = b"\xff\xff\x7f".to_vec();
    let (result, _) = read_var_int(&stream, 0).unwrap();
    assert_eq!(result, 2097151);
}

#[test]
fn test_read_var_int_2147483647() {
    let stream = b"\xff\xff\xff\xff\x07".to_vec();
    let (result, _) = read_var_int(&stream, 0).unwrap();
    assert_eq!(result, 2147483647);
}

#[test]
fn test_read_var_int_minus_1() {
    let stream = b"\xff\xff\xff\xff\x0f".to_vec();
    let (result, _) = read_var_int(&stream, 0).unwrap();
    assert_eq!(result, -1);
}

#[test]
fn test_read_var_int_minus_2147483648() {
    let stream = b"\x80\x80\x80\x80\x08".to_vec();
    let (result, _) = read_var_int(&stream, 0).unwrap();
    assert_eq!(result, -2147483648);
}

#[test]
fn test_read_var_int_too_long_err() {
    let stream = b"\xff\xff\xff\xff\xcf".to_vec();
    let err = read_var_int(&stream, 0).is_err();
    assert!(err);
}

#[test]
fn test_write_var_int_0() {
    let mut stream = Vec::new();
    write_var_int(&mut stream, 0);
    assert_eq!(stream, b"\x00");
}

#[test]
fn test_write_var_int_128() {
    let mut stream = Vec::new();
    write_var_int(&mut stream, 128);
    assert_eq!(stream, b"\x80\x01");
}

#[test]
fn test_write_var_int_25565() {
    let mut stream = Vec::new();
    write_var_int(&mut stream, 25565);
    assert_eq!(stream, b"\xdd\xc7\x01");
}

#[test]
fn test_write_var_int_2147483647() {
    let mut stream = Vec::new();
    write_var_int(&mut stream, 2147483647);
    assert_eq!(stream, b"\xff\xff\xff\xff\x07");
}

#[test]
fn test_read_string_hello_world() {
    let stream = b"\x0cHello, world".to_vec();
    let (result, _) = read_string(&stream, 0).unwrap();
    assert_eq!(result, "Hello, world");
}

#[test]
fn test_read_string_hello_world_to_short() {
    let stream = b"\x0bHello, world".to_vec();
    let (result, _) = read_string(&stream, 0).unwrap();
    assert_eq!(result, "Hello, worl");
}

#[test]
fn test_write_string_hello_world() {
    let mut stream = Vec::new();
    write_string(&mut stream, "Hello, world");
    assert_eq!(stream, b"\x0cHello, world");
}

// Round trips and error shapes beyond the published vectors.

#[test]
fn test_var_int_round_trips() {
    for v in [
        0i32,
        1,
        127,
        128,
        255,
        25565,
        2097151,
        i32::MAX,
        -1,
        i32::MIN,
        -25565,
    ] {
        let mut stream = Vec::new();
        write_var_int(&mut stream, v);
        assert!(stream.len() <= 5);
        let (read, end) = read_var_int(&stream, 0).unwrap();
        assert_eq!(read, v);
        assert_eq!(end, stream.len());
    }
}

#[test]
fn test_var_int_too_long_before_sixth_byte() {
    // Five continuation bytes decide the failure; the sixth byte is
    // never consumed, whatever it holds.
    let stream = b"\xff\xff\xff\xff\xff\x00".to_vec();
    assert_eq!(read_var_int(&stream, 0), Err(WireError::VarIntTooLong));
    let stream = b"\xff\xff\xff\xff\xff\x7f".to_vec();
    assert_eq!(read_var_int(&stream, 0), Err(WireError::VarIntTooLong));
}

#[test]
fn test_var_int_short_read() {
    let stream = b"\xff\xff".to_vec();
    assert_eq!(read_var_int(&stream, 0), Err(WireError::ShortRead));
    let stream = Vec::new();
    assert_eq!(read_var_int(&stream, 0), Err(WireError::ShortRead));
}

#[test]
fn test_read_var_int_mid_buffer() {
    let stream = b"\x00\xdd\xc7\x01\x7f".to_vec();
    let (v, end) = read_var_int(&stream, 1).unwrap();
    assert_eq!(v, 25565);
    assert_eq!(end, 4);
}

#[test]
fn test_string_round_trips() {
    for s in ["", "a", "Hello, world", "mc.example", "\u{00e9}\u{6f22}\u{1f600}"] {
        let mut stream = Vec::new();
        write_string(&mut stream, s);
        let (read, end) = read_string(&stream, 0).unwrap();
        assert_eq!(read, s);
        assert_eq!(end, stream.len());
    }
}

#[test]
fn test_read_string_lossy_on_invalid_utf8() {
    let stream = b"\x02\xff\xfe".to_vec();
    let (result, end) = read_string(&stream, 0).unwrap();
    assert_eq!(result, "\u{fffd}\u{fffd}");
    assert_eq!(end, 3);
}

#[test]
fn test_read_string_short_read() {
    let stream = b"\x05ab".to_vec();
    assert_eq!(read_string(&stream, 0), Err(WireError::ShortRead));
}
