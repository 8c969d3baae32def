use sqlite_pager::errors::DBError;
use sqlite_pager::record::{decode_record, SerialType, Value};

// Builds a one-byte-varint record header for the given serial-type
// codes: total header size first, the codes after it.
fn record_header(codes: &[u8]) -> Vec<u8> {
    let mut payload = vec![(codes.len() + 1) as u8];
    payload.extend_from_slice(codes);
    payload
}

#[test]
fn record_mixed_text_and_integer() {
    let text = b"table";
    let name = b"users";
    let mut payload = record_header(&[
        (13 + 2 * text.len()) as u8,
        (13 + 2 * name.len()) as u8,
        1,
    ]);
    payload.extend_from_slice(text);
    payload.extend_from_slice(name);
    payload.push(42);

    let record = decode_record(&payload).unwrap();
    assert_eq!(record.values.len(), 3);
    match &record.values[0] {
        Value::Text(t) => {
            assert_eq!(t.as_str(), "table");
            assert_eq!(t.len(), text.len());
        }
        other => panic!("expected text, got {:?}", other),
    }
    match &record.values[1] {
        Value::Text(t) => {
            assert_eq!(t.as_str(), "users");
            assert_eq!(t.len(), name.len());
        }
        other => panic!("expected text, got {:?}", other),
    }
    match &record.values[2] {
        Value::Integer(i) => assert_eq!(*i, 42),
        other => panic!("expected integer, got {:?}", other),
    }
}

#[test]
fn record_integer_widths_sign_extend() {
    let mut payload = record_header(&[1, 2, 3, 4, 5, 6]);
    payload.push(0xFF); // I8: -1
    payload.extend_from_slice(&[0x80, 0x00]); // I16: -32768
    payload.extend_from_slice(&[0xFF, 0xFF, 0xFF]); // I24: -1
    payload.extend_from_slice(&[0x7F, 0xFF, 0xFF, 0xFF]); // I32: max
    payload.extend_from_slice(&[0x80, 0x00, 0x00, 0x00, 0x00, 0x00]); // I48: -2^47
    payload.extend_from_slice(&[0x00, 0x00, 0x00, 0x00, 0x00, 0x00, 0x00, 0x09]); // I64: 9

    let record = decode_record(&payload).unwrap();
    let expect: Vec<i64> = vec![-1, -32768, -1, i32::MAX as i64, -(1i64 << 47), 9];
    assert_eq!(record.values.len(), expect.len());
    for (value, want) in record.values.iter().zip(expect.iter()) {
        match value {
            Value::Integer(i) => assert_eq!(i, want),
            other => panic!("expected integer, got {:?}", other),
        }
    }
}

#[test]
fn record_constant_integers_and_null() {
    let payload = record_header(&[0, 8, 9]);
    let record = decode_record(&payload).unwrap();
    assert!(matches!(record.values[0], Value::Null));
    assert!(matches!(record.values[1], Value::Integer(0)));
    assert!(matches!(record.values[2], Value::Integer(1)));
}

#[test]
fn record_float_keeps_bits() {
    let mut payload = record_header(&[7]);
    payload.extend_from_slice(&1.5f64.to_be_bytes());
    let record = decode_record(&payload).unwrap();
    match &record.values[0] {
        Value::Float(bits) => assert_eq!(*bits, 1.5f64.to_bits()),
        other => panic!("expected float, got {:?}", other),
    }
}

#[test]
fn record_blob_copies_bytes() {
    let blob = [0xDE, 0xAD, 0xBE, 0xEF];
    let mut payload = record_header(&[(12 + 2 * blob.len()) as u8]);
    payload.extend_from_slice(&blob);
    let record = decode_record(&payload).unwrap();
    match &record.values[0] {
        Value::Blob(b) => assert_eq!(b.as_slice(), &blob),
        other => panic!("expected blob, got {:?}", other),
    }
}

#[test]
fn record_reserved_serial_types_rejected() {
    let payload = record_header(&[10]);
    assert_eq!(decode_record(&payload), Err(DBError::InvalidSerialType(10)));
    let payload = record_header(&[11]);
    assert_eq!(decode_record(&payload), Err(DBError::InvalidSerialType(11)));
}

#[test]
fn record_invalid_utf8_rejected() {
    let mut payload = record_header(&[13 + 2 * 2]);
    payload.extend_from_slice(&[0xC0, 0x80]);
    assert_eq!(
        decode_record(&payload),
        Err(DBError::InvalidPayloadEncoding)
    );
}

#[test]
fn record_truncated_values_rejected() {
    // The header promises a 4-byte integer; only two bytes follow.
    let mut payload = record_header(&[4]);
    payload.extend_from_slice(&[0x00, 0x01]);
    assert_eq!(decode_record(&payload), Err(DBError::TruncatedPage));
}

#[test]
fn serial_type_classes() {
    assert_eq!(SerialType::from_code(0), Ok(SerialType::Null));
    assert_eq!(SerialType::from_code(7), Ok(SerialType::F64));
    assert_eq!(SerialType::from_code(12), Ok(SerialType::Blob(0)));
    assert_eq!(SerialType::from_code(13), Ok(SerialType::Text(0)));
    assert_eq!(SerialType::from_code(20), Ok(SerialType::Blob(4)));
    assert_eq!(SerialType::from_code(23), Ok(SerialType::Text(5)));
    assert_eq!(SerialType::from_code(10), Err(DBError::InvalidSerialType(10)));
}
