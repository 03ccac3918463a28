//! The variable-length integers.

use carbonite::varint::read;
use carbonite::Error;

#[test]
fn round_trips_representative_values() {
    for value in [
        0u64,
        1,
        127,
        128,
        300,
        16_383,
        16_384,
        u32::MAX as u64,
        u64::MAX,
    ] {
        let mut buf = Vec::new();
        carbonite::varint::write(&mut buf, value);
        let (back, used) = read(&buf).unwrap();
        assert_eq!(back, value);
        assert_eq!(used, buf.len());
    }
}

#[test]
fn single_byte_encoding_for_small_values() {
    let mut buf = Vec::new();
    carbonite::varint::write(&mut buf, 5);
    assert_eq!(buf, [5]);
}

#[test]
fn rejects_truncated_input() {
    assert!(matches!(read(&[0x80]), Err(Error::UnexpectedEof)));
    assert!(matches!(read(&[]), Err(Error::UnexpectedEof)));
}

#[test]
fn rejects_overlong_input() {
    // 11 continuation bytes can never encode a u64.
    let buf = [0x80u8; 11];
    assert!(matches!(read(&buf), Err(Error::InvalidVarint)));
    // 10th byte with more than the final bit set overflows.
    let mut buf = vec![0xffu8; 9];
    buf.push(0x02);
    assert!(matches!(read(&buf), Err(Error::InvalidVarint)));
}

#[test]
fn rejects_padded_input() {
    assert!(matches!(read(&[0x82, 0x00]), Err(Error::InvalidVarint)));
    assert!(matches!(read(&[0x80, 0x00]), Err(Error::InvalidVarint)));
}

#[test]
fn known_encodings() {
    let mut buf = Vec::new();
    carbonite::varint::write(&mut buf, 300);
    assert_eq!(buf, [0xac, 0x02]);
    buf.clear();
    carbonite::varint::write(&mut buf, u64::MAX);
    assert_eq!(buf, [0xff, 0xff, 0xff, 0xff, 0xff, 0xff, 0xff, 0xff, 0xff, 0x01]);
    // What follows is left alone.
    assert_eq!(read(&[0xac, 0x02, 9]).unwrap(), (300, 2));
}
