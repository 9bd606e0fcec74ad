use chainstate::cursor::ByteCursor;
use chainstate::error::DecodeError;
use chainstate::varint::read_varint;
use chainstate::varint::write_varint;

fn read_all(bytes: &[u8]) -> (Result<u64, DecodeError>, usize) {
    let mut cursor = ByteCursor::new(bytes);
    let result = read_varint(&mut cursor);
    (result, cursor.position())
}

#[test]
fn reads_single_byte_values() {
    assert_eq!(read_all(&[0x00]), (Ok(0), 1));
    assert_eq!(read_all(&[0x01]), (Ok(1), 1));
    assert_eq!(read_all(&[0x7f]), (Ok(127), 1));
}

#[test]
fn reads_two_byte_values_with_the_continuation_bias() {
    assert_eq!(read_all(&[0x80, 0x00]), (Ok(128), 2));
    assert_eq!(read_all(&[0x80, 0x7f]), (Ok(255), 2));
    assert_eq!(read_all(&[0x81, 0x00]), (Ok(256), 2));
    assert_eq!(read_all(&[0xfe, 0x7f]), (Ok(16383), 2));
    assert_eq!(read_all(&[0xff, 0x00]), (Ok(16384), 2));
    assert_eq!(read_all(&[0xff, 0x7f]), (Ok(16511), 2));
}

#[test]
fn reads_the_biased_pair_8a_2f() {
    // (0x0a + 1) * 128 + 0x2f
    assert_eq!(read_all(&[0x8a, 0x2f]), (Ok(1455), 2));
}

#[test]
fn reads_longer_values() {
    assert_eq!(read_all(&[0x80, 0x80, 0x00]), (Ok(16512), 3));
    assert_eq!(read_all(&[0x82, 0xfe, 0x7f]), (Ok(65535), 3));
    assert_eq!(read_all(&[0x8e, 0xfe, 0xfe, 0xff, 0x00]), (Ok(1u64 << 32), 5));
}

#[test]
fn reads_the_largest_value() {
    let bytes = [0x80, 0xfe, 0xfe, 0xfe, 0xfe, 0xfe, 0xfe, 0xfe, 0xfe, 0x7f];
    assert_eq!(read_all(&bytes), (Ok(u64::MAX), 10));
}

#[test]
fn stops_at_the_terminating_byte() {
    let bytes = [0x81, 0x2c, 0x05, 0xff];
    let mut cursor = ByteCursor::new(&bytes);
    assert_eq!(read_varint(&mut cursor), Ok(300));
    assert_eq!(cursor.position(), 2);
    assert_eq!(read_varint(&mut cursor), Ok(5));
    assert_eq!(cursor.position(), 3);
    assert_eq!(read_varint(&mut cursor), Err(DecodeError::UnexpectedEof));
    assert_eq!(cursor.position(), 3);
}

#[test]
fn empty_input_is_an_unexpected_end() {
    assert_eq!(read_all(&[]), (Err(DecodeError::UnexpectedEof), 0));
}

#[test]
fn missing_terminator_is_an_unexpected_end() {
    assert_eq!(read_all(&[0x80]), (Err(DecodeError::UnexpectedEof), 0));
    assert_eq!(read_all(&[0xff, 0xff, 0xff]), (Err(DecodeError::UnexpectedEof), 0));
}

#[test]
fn overflow_in_the_shift_is_malformed() {
    let mut bytes = vec![0xff; 10];
    bytes.push(0x00);
    assert_eq!(read_all(&bytes), (Err(DecodeError::MalformedVarInt), 0));
}

#[test]
fn overflow_in_the_increment_is_malformed() {
    // The encoding of the largest value, with its last byte turned into a
    // continuation byte.
    let bytes = [0x80, 0xfe, 0xfe, 0xfe, 0xfe, 0xfe, 0xfe, 0xfe, 0xfe, 0xff, 0x00];
    assert_eq!(read_all(&bytes), (Err(DecodeError::MalformedVarInt), 0));
}

#[test]
fn overflow_is_reported_before_the_end_of_input() {
    // The value has left the range at the tenth byte; that no terminating
    // byte follows does not matter any more.
    let bytes = [0x80, 0xfe, 0xfe, 0xfe, 0xfe, 0xfe, 0xfe, 0xfe, 0xfe, 0xff];
    assert_eq!(read_all(&bytes), (Err(DecodeError::MalformedVarInt), 0));
}

#[test]
fn one_past_the_largest_value_is_malformed() {
    let bytes = [0x80, 0xfe, 0xfe, 0xfe, 0xfe, 0xfe, 0xfe, 0xfe, 0xff, 0x00];
    assert_eq!(read_all(&bytes), (Err(DecodeError::MalformedVarInt), 0));
}

#[test]
fn writes_reference_encodings() {
    assert_eq!(write_varint(0), vec![0x00]);
    assert_eq!(write_varint(127), vec![0x7f]);
    assert_eq!(write_varint(128), vec![0x80, 0x00]);
    assert_eq!(write_varint(255), vec![0x80, 0x7f]);
    assert_eq!(write_varint(256), vec![0x81, 0x00]);
    assert_eq!(write_varint(16511), vec![0xff, 0x7f]);
    assert_eq!(write_varint(16512), vec![0x80, 0x80, 0x00]);
    assert_eq!(write_varint(65535), vec![0x82, 0xfe, 0x7f]);
    assert_eq!(write_varint(1u64 << 32), vec![0x8e, 0xfe, 0xfe, 0xff, 0x00]);
    assert_eq!(
        write_varint(u64::MAX),
        vec![0x80, 0xfe, 0xfe, 0xfe, 0xfe, 0xfe, 0xfe, 0xfe, 0xfe, 0x7f]
    );
}

#[test]
fn written_values_read_back() {
    let samples = [
        0u64,
        1,
        127,
        128,
        300,
        16511,
        16512,
        2_113_663,
        2_113_664,
        1 << 32,
        u64::MAX - 1,
        u64::MAX,
    ];
    for n in samples {
        let mut bytes = write_varint(n);
        let len = bytes.len();
        bytes.push(0xaa);
        assert_eq!(read_all(&bytes), (Ok(n), len));
    }
}
