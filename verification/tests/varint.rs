use netherite::varint;
use netherite::varint::{read, size, VarIntError, MAX_LEN};

fn round_trip(value: i32, expected: &[u8]) {
    let bytes = varint::write(value);
    assert_eq!(bytes.as_slice(), expected);
    assert_eq!(size(value), expected.len());
    assert_eq!(read(&bytes), Ok((expected.len(), value)));
}

#[test]
fn zero_takes_one_byte() {
    round_trip(0, &[0x00]);
}

#[test]
fn largest_one_byte_value() {
    round_trip(127, &[0x7f]);
}

#[test]
fn smallest_two_byte_value() {
    round_trip(128, &[0x80, 0x01]);
}

#[test]
fn largest_two_byte_value() {
    round_trip(16383, &[0xff, 0x7f]);
}

#[test]
fn largest_three_byte_value() {
    round_trip((1 << 21) - 1, &[0xff, 0xff, 0x7f]);
}

#[test]
fn smallest_four_byte_value() {
    round_trip(1 << 21, &[0x80, 0x80, 0x80, 0x01]);
}

#[test]
fn largest_four_byte_value() {
    round_trip((1 << 28) - 1, &[0xff, 0xff, 0xff, 0x7f]);
}

#[test]
fn smallest_five_byte_value() {
    round_trip(1 << 28, &[0x80, 0x80, 0x80, 0x80, 0x01]);
}

#[test]
fn largest_value_takes_five_bytes() {
    round_trip(i32::MAX, &[0xff, 0xff, 0xff, 0xff, 0x07]);
}

#[test]
fn minus_one_takes_five_bytes() {
    round_trip(-1, &[0xff, 0xff, 0xff, 0xff, 0x0f]);
}

#[test]
fn smallest_value_takes_five_bytes() {
    round_trip(i32::MIN, &[0x80, 0x80, 0x80, 0x80, 0x08]);
}

#[test]
fn some_protocol_version() {
    round_trip(765, &[0xfd, 0x05]);
}

#[test]
fn every_size_is_within_bounds() {
    for value in [0, 1, 127, 128, 300, 65535, 1 << 21, i32::MAX, -1, -128, i32::MIN] {
        let n = size(value);
        assert!(1 <= n && n <= MAX_LEN);
        assert_eq!(varint::write(value).len(), n);
    }
}

#[test]
fn read_ignores_what_follows() {
    assert_eq!(read(&[0x80, 0x01, 0xff, 0xff]), Ok((2, 128)));
    assert_eq!(read(&[0x05, 0x80]), Ok((1, 5)));
}

#[test]
fn read_accepts_padded_groups() {
    assert_eq!(read(&[0x80, 0x00]), Ok((2, 0)));
    assert_eq!(read(&[0x81, 0x80, 0x80, 0x80, 0x00]), Ok((5, 1)));
}

#[test]
fn read_of_nothing_is_incomplete() {
    assert_eq!(read(&[]), Err(VarIntError::Eof));
}

#[test]
fn read_of_a_cut_value_is_incomplete() {
    assert_eq!(read(&[0x80]), Err(VarIntError::Eof));
    assert_eq!(read(&[0xff, 0xff, 0xff, 0xff]), Err(VarIntError::Eof));
}

#[test]
fn every_proper_prefix_is_incomplete() {
    for value in [0, 128, 1 << 21, i32::MAX, -1] {
        let bytes = varint::write(value);
        for k in 0..bytes.len() {
            assert_eq!(read(&bytes[..k]), Err(VarIntError::Eof));
        }
    }
}

#[test]
fn sixth_byte_is_rejected() {
    assert_eq!(read(&[0x80, 0x80, 0x80, 0x80, 0x80, 0x01]), Err(VarIntError::TooLong));
}

#[test]
fn five_continuation_bytes_are_rejected_at_once() {
    assert_eq!(read(&[0xff, 0xff, 0xff, 0xff, 0xff]), Err(VarIntError::TooLong));
}

#[test]
fn more_than_32_bits_are_rejected() {
    assert_eq!(read(&[0xff, 0xff, 0xff, 0xff, 0x10]), Err(VarIntError::Overflow));
    assert_eq!(read(&[0x80, 0x80, 0x80, 0x80, 0x7f]), Err(VarIntError::Overflow));
}

#[test]
fn all_32_bits_set_is_minus_one() {
    assert_eq!(read(&[0xff, 0xff, 0xff, 0xff, 0x0f, 0x00]), Ok((5, -1)));
}
