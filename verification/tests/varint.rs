use langpatch::error::FormatError;
use langpatch::varint::{read_varint, write_varint};

fn written(value: i8) -> Vec<u8> {
    let mut out = Vec::new();
    write_varint(&mut out, value);
    out
}

#[test]
fn zero_is_one_zero_byte() {
    assert_eq!(written(0), vec![0x00]);
    assert_eq!(read_varint(&[0x00]), Ok((0, 1)));
}

#[test]
fn largest_count_takes_two_bytes() {
    assert_eq!(written(127), vec![0xFE, 0x01]);
    assert_eq!(read_varint(&[0xFE, 0x01]), Ok((127, 2)));
}

#[test]
fn zero_and_largest_count_round_trip() {
    for value in [0i8, 127i8] {
        let bytes = written(value);
        assert_eq!(read_varint(&bytes), Ok((value, bytes.len())));
    }
}

#[test]
fn every_value_round_trips() {
    for value in i8::MIN..=i8::MAX {
        let mut bytes = written(value);
        let taken = bytes.len();
        bytes.extend_from_slice(&[0xAA, 0x55]);
        assert_eq!(read_varint(&bytes), Ok((value, taken)), "value {}", value);
    }
}

#[test]
fn values_alternate_in_sign() {
    assert_eq!(written(-1), vec![0x01]);
    assert_eq!(written(1), vec![0x02]);
    assert_eq!(written(-2), vec![0x03]);
    assert_eq!(written(2), vec![0x04]);
    assert_eq!(written(63), vec![0x7E]);
    assert_eq!(written(-64), vec![0x7F]);
    assert_eq!(written(64), vec![0x80, 0x01]);
    assert_eq!(written(-128), vec![0xFF, 0x01]);
}

#[test]
fn write_appends_to_what_is_there() {
    let mut out = vec![9u8, 8, 7];
    write_varint(&mut out, 5);
    assert_eq!(out, vec![9, 8, 7, 0x0A]);
}

#[test]
fn read_stops_at_the_end_of_the_chain() {
    assert_eq!(read_varint(&[0x0A, 0xFF, 0xFF]), Ok((5, 1)));
    assert_eq!(read_varint(&[0x80, 0x01, 0xFF]), Ok((64, 2)));
}

#[test]
fn high_bits_of_the_second_group_are_dropped() {
    assert_eq!(read_varint(&[0x80, 0x7F]), Ok((64, 2)));
    assert_eq!(read_varint(&[0x80, 0x7E]), Ok((0, 2)));
    assert_eq!(read_varint(&[0x81, 0x00]), Ok((-1, 2)));
}

#[test]
fn chain_past_the_width_fails() {
    assert_eq!(read_varint(&[0x80, 0x80, 0x00]), Err(FormatError::MalformedVarint));
    assert_eq!(
        read_varint(&[0xFF, 0xFF, 0xFF, 0xFF, 0xFF, 0xFF, 0xFF, 0xFF, 0xFF, 0xFF, 0x01]),
        Err(FormatError::MalformedVarint)
    );
}

#[test]
fn source_exhausted_inside_the_chain_fails() {
    assert_eq!(read_varint(&[]), Err(FormatError::MalformedVarint));
    assert_eq!(read_varint(&[0x80]), Err(FormatError::MalformedVarint));
    assert_eq!(read_varint(&[0xFF]), Err(FormatError::MalformedVarint));
}
