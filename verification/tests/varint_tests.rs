use sqlite_pager::errors::DBError;
use sqlite_pager::varint::{encode_varint, get_varint, read_u64_from_bytes, read_varint};

#[test]
fn file_structures_decode_varint_test() {
    let result = read_varint(&[0x82, 0x2C]);
    match result {
        Ok(value) => assert_eq!(value, (300 as u64, 2)),
        Err(..) => unreachable!(),
    }

    let result = read_varint(&[0x81, 0x07]);
    match result {
        Ok(value) => assert_eq!(value, (135 as u64, 2)),
        Err(..) => unreachable!(),
    }
}

#[test]
fn varint_decode_varint_test() {
    let result = get_varint(&[0x82, 0x2C], &mut 0);
    assert_eq!(result, 300 as u64);

    let result = get_varint(&[0x81, 0x07], &mut 0);
    assert_eq!(result, 135 as u64);
}

#[test]
fn get_varint_advances_offset() {
    let buffer = [0x82, 0x2C, 0x07];
    let mut offset = 0usize;
    assert_eq!(get_varint(&buffer, &mut offset), 300);
    assert_eq!(offset, 2);
    assert_eq!(get_varint(&buffer, &mut offset), 7);
    assert_eq!(offset, 3);
}

#[test]
fn varint_round_trip() {
    let values = [
        0u64,
        1,
        127,
        128,
        300,
        16383,
        16384,
        0x00FF_FFFF_FFFF_FFFF,
        0x0100_0000_0000_0000,
        u64::MAX - 1,
        u64::MAX,
    ];
    for &v in values.iter() {
        let encoded = encode_varint(v);
        assert!(1 <= encoded.len() && encoded.len() <= 9);
        let (decoded, consumed) = read_varint(&encoded).unwrap();
        assert_eq!(decoded, v);
        assert_eq!(consumed, encoded.len());
    }
}

#[test]
fn varint_encode_known_forms() {
    assert_eq!(encode_varint(0), vec![0x00]);
    assert_eq!(encode_varint(127), vec![0x7F]);
    assert_eq!(encode_varint(300), vec![0x82, 0x2C]);
    assert_eq!(encode_varint(135), vec![0x81, 0x07]);
    // Values of 57 bits and more take the full nine-byte form.
    assert_eq!(encode_varint(u64::MAX).len(), 9);
    assert_eq!(encode_varint(0x0100_0000_0000_0000).len(), 9);
    assert_eq!(encode_varint(0x00FF_FFFF_FFFF_FFFF).len(), 8);
}

#[test]
fn varint_truncated_input() {
    assert_eq!(read_varint(&[]), Err(DBError::TruncatedInput));
    assert_eq!(read_varint(&[0x80]), Err(DBError::TruncatedInput));
    assert_eq!(read_varint(&[0xFF; 8]), Err(DBError::TruncatedInput));
    // Nine continuation-flagged bytes decode: the ninth byte uses all
    // eight of its bits.
    assert!(read_varint(&[0xFF; 9]).is_ok());
}

#[test]
fn read_u64_from_bytes_big_endian() {
    assert_eq!(read_u64_from_bytes(&[]), 0);
    assert_eq!(read_u64_from_bytes(&[0x12]), 0x12);
    assert_eq!(read_u64_from_bytes(&[0x12, 0x34, 0x56]), 0x123456);
    assert_eq!(
        read_u64_from_bytes(&[0xFF, 0xFF, 0xFF, 0xFF, 0xFF, 0xFF, 0xFF, 0xFF]),
        u64::MAX
    );
}
