use oxidb::{ColumnValue, DataType, StorageError};

fn unsigned(bytes: u8) -> DataType {
    DataType::Integer { signed: false, bytes }
}

fn signed(bytes: u8) -> DataType {
    DataType::Integer { signed: true, bytes }
}

fn text(s: &str) -> ColumnValue {
    ColumnValue::StringLiteral(s.to_string())
}

#[test]
fn fixed_length_is_the_declared_width() {
    assert_eq!(DataType::String(8).get_fixed_length(), 8);
    assert_eq!(unsigned(4).get_fixed_length(), 4);
    assert_eq!(signed(8).get_fixed_length(), 8);
}

#[test]
fn unsigned_encodes_little_endian() {
    let v = ColumnValue::UnsignedInteger(0x0102);
    assert_eq!(v.to_bytes(&unsigned(2)), Ok(vec![0x02, 0x01]));
    assert_eq!(
        v.to_bytes(&unsigned(8)),
        Ok(vec![0x02, 0x01, 0, 0, 0, 0, 0, 0])
    );
}

#[test]
fn signed_encodes_twos_complement() {
    let v = ColumnValue::SignedInteger(-2);
    assert_eq!(v.to_bytes(&signed(1)), Ok(vec![0xfe]));
    assert_eq!(v.to_bytes(&signed(4)), Ok(vec![0xfe, 0xff, 0xff, 0xff]));
    assert_eq!(
        ColumnValue::SignedInteger(i64::MIN).to_bytes(&signed(8)),
        Ok(vec![0, 0, 0, 0, 0, 0, 0, 0x80])
    );
}

#[test]
fn string_is_zero_padded() {
    assert_eq!(
        text("foo").to_bytes(&DataType::String(8)),
        Ok(vec![b'f', b'o', b'o', 0, 0, 0, 0, 0])
    );
    assert_eq!(
        text("é").to_bytes(&DataType::String(3)),
        Ok(vec![0xc3, 0xa9, 0])
    );
}

#[test]
fn encoded_width_matches_type() {
    let cases = vec![
        (ColumnValue::UnsignedInteger(7), unsigned(1)),
        (ColumnValue::UnsignedInteger(u64::MAX), unsigned(8)),
        (ColumnValue::SignedInteger(-7), signed(2)),
        (text(""), DataType::String(5)),
        (text("abcde"), DataType::String(5)),
    ];
    for (v, t) in cases {
        assert_eq!(v.to_bytes(&t).unwrap().len(), t.get_fixed_length());
    }
}

#[test]
fn values_round_trip() {
    let cases = vec![
        (ColumnValue::UnsignedInteger(0), unsigned(1)),
        (ColumnValue::UnsignedInteger(255), unsigned(1)),
        (ColumnValue::UnsignedInteger(65535), unsigned(2)),
        (ColumnValue::UnsignedInteger(4_000_000_000), unsigned(4)),
        (ColumnValue::UnsignedInteger(u64::MAX), unsigned(8)),
        (ColumnValue::SignedInteger(-128), signed(1)),
        (ColumnValue::SignedInteger(127), signed(1)),
        (ColumnValue::SignedInteger(-30000), signed(2)),
        (ColumnValue::SignedInteger(i32::MIN as i64), signed(4)),
        (ColumnValue::SignedInteger(i64::MIN), signed(8)),
        (ColumnValue::SignedInteger(i64::MAX), signed(8)),
        (text("foo"), DataType::String(8)),
        (text("exactly8"), DataType::String(8)),
        (text("héllo"), DataType::String(6)),
        (text(""), DataType::String(4)),
    ];
    for (v, t) in cases {
        let bytes = v.to_bytes(&t).unwrap();
        assert_eq!(ColumnValue::from_bytes(&t, &bytes), Ok(v));
    }
}

#[test]
fn trailing_nul_in_text_is_lost() {
    let bytes = text("a\0").to_bytes(&DataType::String(4)).unwrap();
    assert_eq!(ColumnValue::from_bytes(&DataType::String(4), &bytes), Ok(text("a")));
}

#[test]
fn invalid_utf8_is_replaced() {
    let bytes = vec![0xff, b'a', 0, 0];
    assert_eq!(
        ColumnValue::from_bytes(&DataType::String(4), &bytes),
        Ok(text("\u{fffd}a"))
    );
}

#[test]
fn decode_reads_little_endian() {
    assert_eq!(
        ColumnValue::from_bytes(&unsigned(2), &[0x34, 0x12]),
        Ok(ColumnValue::UnsignedInteger(0x1234))
    );
    assert_eq!(
        ColumnValue::from_bytes(&signed(2), &[0xff, 0xff]),
        Ok(ColumnValue::SignedInteger(-1))
    );
}

#[test]
fn mismatched_kinds_are_refused() {
    assert_eq!(
        ColumnValue::UnsignedInteger(1).to_bytes(&signed(8)),
        Err(StorageError::TypeMismatch)
    );
    assert_eq!(
        ColumnValue::SignedInteger(1).to_bytes(&unsigned(8)),
        Err(StorageError::TypeMismatch)
    );
    assert_eq!(
        text("1").to_bytes(&unsigned(8)),
        Err(StorageError::TypeMismatch)
    );
    assert_eq!(
        ColumnValue::UnsignedInteger(1).to_bytes(&DataType::String(8)),
        Err(StorageError::TypeMismatch)
    );
}

#[test]
fn oversized_values_are_refused() {
    assert_eq!(
        text("toolongname").to_bytes(&DataType::String(8)),
        Err(StorageError::ValueTooLarge)
    );
    assert_eq!(
        text("éé").to_bytes(&DataType::String(3)),
        Err(StorageError::ValueTooLarge)
    );
    assert_eq!(
        ColumnValue::UnsignedInteger(256).to_bytes(&unsigned(1)),
        Err(StorageError::ValueTooLarge)
    );
    assert_eq!(
        ColumnValue::SignedInteger(128).to_bytes(&signed(1)),
        Err(StorageError::ValueTooLarge)
    );
    assert_eq!(
        ColumnValue::SignedInteger(-32769).to_bytes(&signed(2)),
        Err(StorageError::ValueTooLarge)
    );
}

#[test]
fn unsupported_types_are_refused() {
    assert_eq!(
        text("").to_bytes(&DataType::String(0)),
        Err(StorageError::UnsupportedEncoding)
    );
    assert_eq!(
        ColumnValue::UnsignedInteger(1).to_bytes(&unsigned(3)),
        Err(StorageError::UnsupportedEncoding)
    );
    assert_eq!(
        ColumnValue::SignedInteger(1).to_bytes(&signed(16)),
        Err(StorageError::UnsupportedEncoding)
    );
    assert_eq!(
        ColumnValue::from_bytes(&DataType::String(0), &[]),
        Err(StorageError::UnsupportedEncoding)
    );
    assert_eq!(
        ColumnValue::from_bytes(&unsigned(3), &[1, 2, 3]),
        Err(StorageError::UnsupportedEncoding)
    );
    assert!(!DataType::String(0).is_supported());
    assert!(DataType::String(1).is_supported());
    assert!(!unsigned(0).is_supported());
}

#[test]
fn values_compare_by_content() {
    assert_eq!(text("a"), text("a"));
    assert_ne!(text("a"), text("b"));
    assert_ne!(ColumnValue::UnsignedInteger(1), ColumnValue::SignedInteger(1));
    assert_eq!(ColumnValue::SignedInteger(-1), ColumnValue::SignedInteger(-1));
}
