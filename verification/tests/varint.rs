use rustmc::varint::{VarInt, VarIntError, VarLong};

#[test]
fn varint_zero() {
    let v = VarInt(0);
    assert_eq!(v.encoded_len(), 1);
    assert_eq!(v.to_bytes(), vec![0x00]);
    let (decoded, n) = VarInt::from_bytes(&[0x00]).unwrap();
    assert_eq!(decoded.0, 0);
    assert_eq!(n, 1);
}

#[test]
fn varint_one_byte_max() {
    let v = VarInt(127);
    assert_eq!(v.encoded_len(), 1);
    assert_eq!(v.to_bytes(), vec![0x7F]);
}

#[test]
fn varint_two_byte_min() {
    let v = VarInt(128);
    assert_eq!(v.encoded_len(), 2);
    assert_eq!(v.to_bytes(), vec![0x80, 0x01]);
}

#[test]
fn varint_typical_packet_id() {
    let v = VarInt(0x00);
    assert_eq!(v.to_bytes(), vec![0x00]);
}

#[test]
fn varint_negative_one() {
    let v = VarInt(-1);
    assert_eq!(v.encoded_len(), 5);
    let bytes = v.to_bytes();
    let (decoded, _) = VarInt::from_bytes(&bytes).unwrap();
    assert_eq!(decoded.0, -1);
}

#[test]
fn varint_max_i32() {
    let v = VarInt(i32::MAX);
    assert_eq!(v.encoded_len(), 5);
    let bytes = v.to_bytes();
    let (decoded, _) = VarInt::from_bytes(&bytes).unwrap();
    assert_eq!(decoded.0, i32::MAX);
}

#[test]
fn varint_min_i32() {
    let v = VarInt(i32::MIN);
    assert_eq!(v.encoded_len(), 5);
    let bytes = v.to_bytes();
    let (decoded, _) = VarInt::from_bytes(&bytes).unwrap();
    assert_eq!(decoded.0, i32::MIN);
}

#[test]
fn varint_protocol_version_776() {
    let v = VarInt(776);
    assert_eq!(v.encoded_len(), 2);
    assert_eq!(v.to_bytes(), vec![0x88, 0x06]);
    let (decoded, _) = VarInt::from_bytes(&[0x88, 0x06]).unwrap();
    assert_eq!(decoded.0, 776);
}

#[test]
fn varlong_zero() {
    let v = VarLong(0);
    assert_eq!(v.encoded_len(), 1);
    assert_eq!(v.to_bytes(), vec![0x00]);
}

#[test]
fn varlong_max() {
    let v = VarLong(i64::MAX);
    let bytes = v.to_bytes();
    let (decoded, _) = VarLong::from_bytes(&bytes).unwrap();
    assert_eq!(decoded.0, i64::MAX);
}

#[test]
fn varlong_negative() {
    let v = VarLong(-1);
    let bytes = v.to_bytes();
    let (decoded, _) = VarLong::from_bytes(&bytes).unwrap();
    assert_eq!(decoded.0, -1);
}

#[test]
fn roundtrip_various() {
    for &val in &[0, 1, 42, 127, 128, 255, 16383, 16384, 2097151, 2097152, i32::MAX, -1, i32::MIN] {
        let v = VarInt(val);
        let bytes = v.to_bytes();
        let (decoded, n) = VarInt::from_bytes(&bytes).unwrap();
        assert_eq!(n, bytes.len(), "wrong consumed for {val}");
        assert_eq!(decoded, v, "roundtrip failed for {val}");
    }
}

#[test]
fn varint_incomplete() {
    assert!(matches!(VarInt::from_bytes(&[]), Err(VarIntError::Incomplete)));
    assert!(matches!(VarInt::from_bytes(&[0x80]), Err(VarIntError::Incomplete)));
}

#[test]
fn varint_too_large() {
    assert!(matches!(
        VarInt::from_bytes(&[0x80, 0x80, 0x80, 0x80, 0x80]),
        Err(VarIntError::TooLarge)
    ));
}

#[test]
fn varlong_too_large_error() {
    let bytes = [0x80u8; 10];
    assert!(matches!(VarLong::from_bytes(&bytes), Err(VarIntError::VarLongTooLarge)));
}

#[test]
fn varint_length_table() {
    assert_eq!(VarInt(0).encoded_len(), 1);
    assert_eq!(VarInt(127).encoded_len(), 1);
    assert_eq!(VarInt(128).encoded_len(), 2);
    assert_eq!(VarInt(16383).encoded_len(), 2);
    assert_eq!(VarInt(16384).encoded_len(), 3);
    assert_eq!(VarInt(2097151).encoded_len(), 3);
    assert_eq!(VarInt(2097152).encoded_len(), 4);
    assert_eq!(VarInt(268435455).encoded_len(), 4);
    assert_eq!(VarInt(268435456).encoded_len(), 5);
}

#[test]
fn varint_read_write_cursor() {
    let mut buf = bytes::BytesMut::new();
    VarInt(300).write(&mut buf);
    VarInt(-2).write(&mut buf);
    assert_eq!(&buf[..], &[0xAC, 0x02, 0xFE, 0xFF, 0xFF, 0xFF, 0x0F]);
    let mut cur = buf.freeze();
    assert_eq!(VarInt::read(&mut cur).unwrap().0, 300);
    assert_eq!(VarInt::read(&mut cur).unwrap().0, -2);
    assert!(matches!(VarInt::read(&mut cur), Err(VarIntError::Incomplete)));
}

#[test]
fn varlong_roundtrip_values() {
    for &val in &[0i64, 1, 300, -300, i64::MIN, i64::MAX, 1 << 40] {
        let bytes = VarLong(val).to_bytes();
        assert_eq!(bytes.len(), VarLong(val).encoded_len());
        let (decoded, n) = VarLong::from_bytes(&bytes).unwrap();
        assert_eq!(decoded.0, val);
        assert_eq!(n, bytes.len());
    }
    assert_eq!(VarLong(-1).encoded_len(), 10);
}

#[test]
fn varint_error_messages_and_defaults() {
    assert_eq!(VarIntError::Incomplete.message(), "incomplete: expected at least 1 byte");
    assert_eq!(VarIntError::TooLarge.message(), "VarInt too large: exceeds 5 bytes (max i32)");
    assert_eq!(VarIntError::VarLongTooLarge.message(), "VarLong too large: exceeds 10 bytes (max i64)");
    assert_eq!(VarInt::default().0, 0);
    assert_eq!(VarLong::default().0, 0);
    assert_eq!(VarInt::new(5).0, 5);
    assert_eq!(VarLong::new(-5).0, -5);
}

#[test]
fn varint_layout_examples() {
    assert_eq!(&VarInt(128).to_bytes()[..], &[0x80, 0x01]);
    assert_eq!(&VarInt(776).to_bytes()[..], &[0x88, 0x06]);
    for v in [0i32, 1, 127, 128, 300, 16383, 16384, i32::MAX, -1, i32::MIN] {
        let b = VarInt(v).to_bytes();
        let n = b.len();
        assert_eq!(n, VarInt(v).encoded_len());
        assert!(b[..n - 1].iter().all(|x| x & 0x80 != 0));
        assert_eq!(b[n - 1] & 0x80, 0);
        assert!(n == 1 || b[n - 1] != 0);
        let sum: u64 = b.iter().enumerate().map(|(i, x)| ((x & 0x7f) as u64) << (7 * i)).sum();
        assert_eq!(sum, v as u32 as u64);
    }
}

#[test]
fn varlong_length_examples() {
    assert_eq!(VarLong(0).encoded_len(), 1);
    assert_eq!(VarLong(127).encoded_len(), 1);
    assert_eq!(VarLong(128).encoded_len(), 2);
    assert_eq!(VarLong(i64::MAX).encoded_len(), 9);
    for v in [-1i64, i64::MIN, -128] {
        assert_eq!(VarLong(v).encoded_len(), 10);
        assert_eq!(VarLong(v).to_bytes().len(), 10);
    }
}
