//! The wire codec against hand-laid-out buffers and round trips.

use turtle_bridge::codec::{
    decode_log, decode_velocity, encode_log, encode_velocity, DecodeError, LogEntry, LogTime,
    Vector3, VelocityMessage,
};

fn twist(lx: f64, ly: f64, lz: f64, ax: f64, ay: f64, az: f64) -> VelocityMessage {
    VelocityMessage {
        linear: Vector3 { x: lx.to_bits(), y: ly.to_bits(), z: lz.to_bits() },
        angular: Vector3 { x: ax.to_bits(), y: ay.to_bits(), z: az.to_bits() },
    }
}

fn wire_of_twist(lx: f64, ly: f64, lz: f64, ax: f64, ay: f64, az: f64) -> Vec<u8> {
    let mut buf = vec![0u8, 1, 0, 0];
    for v in [lx, ly, lz, ax, ay, az] {
        buf.extend_from_slice(&v.to_le_bytes());
    }
    buf
}

#[test]
fn velocity_encodes_to_the_wire_layout() {
    let m = twist(5.0, 0.0, 0.0, 0.0, 0.0, 2.0);
    assert_eq!(encode_velocity(&m), wire_of_twist(5.0, 0.0, 0.0, 0.0, 0.0, 2.0));
}

#[test]
fn velocity_round_trips() {
    let samples = [
        twist(0.0, 0.0, 0.0, 0.0, 0.0, 0.0),
        twist(5.0, 0.0, 0.0, 0.0, 0.0, 2.0),
        twist(-1.0, 2.5, -3.75, 0.125, -0.25, 1e300),
        twist(f64::INFINITY, f64::NEG_INFINITY, f64::NAN, -0.0, 1e-300, 42.0),
    ];
    for m in samples {
        assert_eq!(decode_velocity(&encode_velocity(&m)), Ok(m));
    }
}

#[test]
fn velocity_preserves_fields_peers_populate() {
    let buf = wire_of_twist(1.0, 2.0, 3.0, 4.0, 5.0, 6.0);
    let m = decode_velocity(&buf).unwrap();
    assert_eq!(f64::from_bits(m.linear.y), 2.0);
    assert_eq!(f64::from_bits(m.angular.x), 4.0);
    assert_eq!(encode_velocity(&m), buf);
}

#[test]
fn short_velocity_buffers_are_rejected() {
    let full = wire_of_twist(5.0, 0.0, 0.0, 0.0, 0.0, 2.0);
    for n in 0..52 {
        assert!(decode_velocity(&full[..n]).is_err());
    }
    assert!(decode_velocity(&[]).is_err());
}

#[test]
fn foreign_encapsulation_is_rejected() {
    let mut buf = wire_of_twist(5.0, 0.0, 0.0, 0.0, 0.0, 2.0);
    buf[1] = 0; // big-endian header
    assert_eq!(decode_velocity(&buf), Err(DecodeError::Encapsulation));
    buf[1] = 9;
    assert_eq!(decode_velocity(&buf), Err(DecodeError::Encapsulation));
}

#[test]
fn trailing_bytes_are_ignored() {
    let m = twist(5.0, 0.0, 0.0, 0.0, 0.0, 2.0);
    let mut buf = encode_velocity(&m);
    buf.push(0xAB);
    buf.push(0xCD);
    assert_eq!(decode_velocity(&buf), Ok(m));
}

fn log_entry(sec: i32, nanosec: u32, level: u8, parts: [&str; 4], line: u32) -> LogEntry {
    LogEntry {
        stamp: LogTime { sec, nanosec },
        level,
        source: parts[0].as_bytes().to_vec(),
        message: parts[1].as_bytes().to_vec(),
        file: parts[2].as_bytes().to_vec(),
        function: parts[3].as_bytes().to_vec(),
        line,
    }
}

#[test]
fn log_encodes_to_the_wire_layout() {
    let x = log_entry(1, 2, 20, ["ab", "hello", "f.c", "main"], 7);
    let mut want = vec![0u8, 1, 0, 0];
    want.extend_from_slice(&1i32.to_le_bytes());
    want.extend_from_slice(&2u32.to_le_bytes());
    want.push(20);
    want.extend_from_slice(&[0, 0, 0]); // padding to the first length
    want.extend_from_slice(&3u32.to_le_bytes());
    want.extend_from_slice(b"ab\0");
    want.push(0); // padding: 23 -> 24
    want.extend_from_slice(&6u32.to_le_bytes());
    want.extend_from_slice(b"hello\0");
    want.extend_from_slice(&[0, 0]); // padding: 34 -> 36
    want.extend_from_slice(&4u32.to_le_bytes());
    want.extend_from_slice(b"f.c\0");
    want.extend_from_slice(&5u32.to_le_bytes());
    want.extend_from_slice(b"main\0");
    want.extend_from_slice(&[0, 0, 0]); // padding: 53 -> 56
    want.extend_from_slice(&7u32.to_le_bytes());
    assert_eq!(encode_log(&x), want);
}

#[test]
fn log_round_trips() {
    let samples = [
        log_entry(0, 0, 0, ["", "", "", ""], 0),
        log_entry(1652000000, 123456789, 20, ["turtlesim", "Spawning turtle", "src/spawn.c", "spawn"], 42),
        log_entry(-5, 999999999, 40, ["a", "bb", "ccc", "dddd"], u32::MAX),
        log_entry(i32::MIN, u32::MAX, 255, ["x", "", "y", ""], 1),
    ];
    for x in samples {
        assert_eq!(decode_log(&encode_log(&x)), Ok(x));
    }
}

#[test]
fn log_text_fields_must_be_utf8() {
    let mut x = log_entry(1, 2, 10, ["n", "m", "f", "g"], 3);
    x.message = vec![0xFF, 0xFE, 0x61];
    assert_eq!(decode_log(&encode_log(&x)), Err(DecodeError::Utf8));
}

#[test]
fn multi_byte_text_round_trips() {
    let x = log_entry(1, 2, 20, ["caf\u{e9}", "\u{1F422} ahead", "\u{20AC}5", "\u{D55C}"], 9);
    assert_eq!(decode_log(&encode_log(&x)), Ok(x));
}

#[test]
fn overlong_and_surrogate_encodings_are_rejected() {
    let mut x = log_entry(1, 2, 10, ["n", "m", "f", "g"], 3);
    x.source = vec![0xC0, 0xAF]; // overlong slash
    assert_eq!(decode_log(&encode_log(&x)), Err(DecodeError::Utf8));
    x.source = vec![0xED, 0xA0, 0x80]; // surrogate
    assert_eq!(decode_log(&encode_log(&x)), Err(DecodeError::Utf8));
    x.source = vec![0x61, 0xC3]; // truncated two-byte character
    assert_eq!(decode_log(&encode_log(&x)), Err(DecodeError::Utf8));
}

#[test]
fn truncated_log_buffers_are_rejected() {
    let full = encode_log(&log_entry(1, 2, 20, ["ab", "hello", "f.c", "main"], 7));
    for n in 0..36 {
        assert!(decode_log(&full[..n]).is_err(), "length {n} must be rejected");
    }
    assert_eq!(decode_log(&full[..3]), Err(DecodeError::Truncated));
}

#[test]
fn padding_bytes_are_skipped_unexamined() {
    // The peers' decoders never look at padding values; neither does ours.
    let x = log_entry(1, 2, 20, ["ab", "hello", "f.c", "main"], 7);
    let mut buf = encode_log(&x);
    buf[13] = 0xAA; // inside the padding after the level byte
    buf[14] = 0xBB;
    assert_eq!(decode_log(&buf), Ok(x));
}

#[test]
fn parameter_list_little_endian_header_is_read() {
    let m = twist(5.0, 0.0, 0.0, 0.0, 0.0, 2.0);
    let mut buf = encode_velocity(&m);
    buf[1] = 3;
    assert_eq!(decode_velocity(&buf), Ok(m));
}

#[test]
fn log_with_lying_length_prefix_is_rejected() {
    let mut buf = encode_log(&log_entry(1, 2, 20, ["ab", "hello", "f.c", "main"], 7));
    // stretch the first field's length far past the buffer
    buf[16] = 0xFF;
    buf[17] = 0xFF;
    assert_eq!(decode_log(&buf), Err(DecodeError::Truncated));
}
