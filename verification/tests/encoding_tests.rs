use nbt_rust::{
    read_var_u32, read_var_u64, write_var_u64, BigEndianCodec, ByteReader, Error,
    LittleEndianCodec, NetworkLittleEndianCodec,
};

#[test]
fn be_uses_fixed_width_i32() {
    let mut out = Vec::new();
    BigEndianCodec::new().write_i32(&mut out, 300).unwrap();
    assert_eq!(out, vec![0x00, 0x00, 0x01, 0x2c]);
}

#[test]
fn le_uses_fixed_width_i32() {
    let mut out = Vec::new();
    LittleEndianCodec::new().write_i32(&mut out, 300).unwrap();
    assert_eq!(out, vec![0x2c, 0x01, 0x00, 0x00]);
}

#[test]
fn nle_i32_roundtrip_uses_zigzag_varint() {
    let nle = NetworkLittleEndianCodec::new();
    let values = [0, 1, -1, 2, -2, i32::MAX, i32::MIN];
    for value in values {
        let mut out = Vec::new();
        nle.write_i32(&mut out, value).unwrap();
        let mut input = ByteReader::new(out);
        let decoded = nle.read_i32(&mut input).unwrap();
        assert_eq!(decoded, value);
    }
}

#[test]
fn nle_i64_roundtrip_uses_zigzag_varint() {
    let nle = NetworkLittleEndianCodec::new();
    let values = [0, 1, -1, 2, -2, i64::MAX, i64::MIN];
    for value in values {
        let mut out = Vec::new();
        nle.write_i64(&mut out, value).unwrap();
        let mut input = ByteReader::new(out);
        let decoded = nle.read_i64(&mut input).unwrap();
        assert_eq!(decoded, value);
    }
}

#[test]
fn nle_keeps_float_as_little_endian() {
    let mut out = Vec::new();
    NetworkLittleEndianCodec::new().write_f32(&mut out, 1.5f32.to_bits()).unwrap();
    assert_eq!(out, 1.5f32.to_le_bytes());
}

#[test]
fn nle_uses_varuint_for_string_and_list_lengths() {
    let nle = NetworkLittleEndianCodec::new();
    let mut out = Vec::new();
    nle.write_string_len(&mut out, 300).unwrap();
    nle.write_list_len(&mut out, 300).unwrap();

    // varuint(300) = 0xAC, 0x02
    assert_eq!(out, vec![0xAC, 0x02, 0xAC, 0x02]);

    let mut input = ByteReader::new(out);
    assert_eq!(nle.read_string_len(&mut input).unwrap(), 300);
    assert_eq!(nle.read_list_len(&mut input).unwrap(), 300);
}

#[test]
fn be_string_len_uses_u16_prefix() {
    let be = BigEndianCodec::new();
    let mut out = Vec::new();
    be.write_string_len(&mut out, 300).unwrap();
    assert_eq!(out, vec![0x01, 0x2C]);

    let mut input = ByteReader::new(out);
    assert_eq!(be.read_string_len(&mut input).unwrap(), 300);
}

#[test]
fn le_string_len_uses_u16_prefix() {
    let le = LittleEndianCodec::new();
    let mut out = Vec::new();
    le.write_string_len(&mut out, 300).unwrap();
    assert_eq!(out, vec![0x2C, 0x01]);

    let mut input = ByteReader::new(out);
    assert_eq!(le.read_string_len(&mut input).unwrap(), 300);
}

#[test]
fn be_list_len_uses_i32_prefix() {
    let be = BigEndianCodec::new();
    let mut out = Vec::new();
    be.write_list_len(&mut out, 300).unwrap();
    assert_eq!(out, vec![0x00, 0x00, 0x01, 0x2C]);

    let mut input = ByteReader::new(out);
    assert_eq!(be.read_list_len(&mut input).unwrap(), 300);
}

#[test]
fn le_list_len_uses_i32_prefix() {
    let le = LittleEndianCodec::new();
    let mut out = Vec::new();
    le.write_list_len(&mut out, 300).unwrap();
    assert_eq!(out, vec![0x2C, 0x01, 0x00, 0x00]);

    let mut input = ByteReader::new(out);
    assert_eq!(le.read_list_len(&mut input).unwrap(), 300);
}

#[test]
fn be_string_len_overflow_is_rejected() {
    let err = BigEndianCodec::new().write_string_len(&mut Vec::new(), (u16::MAX as usize) + 1);
    assert!(matches!(err, Err(Error::LengthOverflow { .. })));
}

#[test]
fn be_negative_list_len_is_rejected() {
    let mut input = ByteReader::new((-1i32).to_be_bytes().to_vec());
    let err = BigEndianCodec::new().read_list_len(&mut input);
    assert!(matches!(err, Err(Error::NegativeLength { .. })));
}

#[test]
fn overlong_var_u32_is_rejected() {
    let bytes = vec![0x80, 0x80, 0x80, 0x80, 0x80, 0x00];
    let mut input = ByteReader::new(bytes);
    let err = read_var_u32(&mut input);
    assert!(matches!(err, Err(Error::InvalidVarint { .. })));
}

#[test]
fn overlong_var_u64_is_rejected() {
    let bytes = vec![
        0x80, 0x80, 0x80, 0x80, 0x80, 0x80, 0x80, 0x80, 0x80, 0x80, 0x00,
    ];
    let mut input = ByteReader::new(bytes);
    let err = read_var_u64(&mut input);
    assert!(matches!(err, Err(Error::InvalidVarint { .. })));
}

#[test]
fn invalid_terminal_byte_var_u64_is_rejected() {
    // 10-byte payload where the terminal byte carries bits beyond bit 63.
    let bytes = vec![0xFF, 0xFF, 0xFF, 0xFF, 0xFF, 0xFF, 0xFF, 0xFF, 0xFF, 0x02];
    let mut input = ByteReader::new(bytes);
    let err = read_var_u64(&mut input);
    assert!(matches!(
        err,
        Err(Error::InvalidVarint {
            detail: "u64 varint terminal byte overflow"
        })
    ));
}

#[test]
fn truncated_var_u32_is_rejected_as_invalid_varint() {
    let mut input = ByteReader::new(vec![0x80]);
    let err = read_var_u32(&mut input);
    assert!(matches!(err, Err(Error::InvalidVarint { .. })));
}

#[test]
fn truncated_var_u64_is_rejected_as_invalid_varint() {
    let mut input = ByteReader::new(vec![0x80]);
    let err = read_var_u64(&mut input);
    assert!(matches!(err, Err(Error::InvalidVarint { .. })));
}

#[test]
fn var_u64_boundary_values_roundtrip() {
    let values = [
        0u64,
        1,
        127,
        128,
        255,
        16_383,
        16_384,
        u32::MAX as u64,
        (u32::MAX as u64) + 1,
        (1u64 << 63) - 1,
        1u64 << 63,
        u64::MAX,
    ];

    for value in values {
        let mut out = Vec::new();
        write_var_u64(&mut out, value).unwrap();
        let mut input = ByteReader::new(out);
        let decoded = read_var_u64(&mut input).unwrap();
        assert_eq!(decoded, value);
    }
}

#[test]
fn nle_keeps_i16_as_little_endian_fixed_width() {
    let nle = NetworkLittleEndianCodec::new();
    let mut out = Vec::new();
    nle.write_i16(&mut out, 0x1234).unwrap();
    assert_eq!(out, 0x1234i16.to_le_bytes());

    let mut input = ByteReader::new(out);
    let value = nle.read_i16(&mut input).unwrap();
    assert_eq!(value, 0x1234i16);
}

#[test]
fn nle_keeps_f64_as_little_endian() {
    let nle = NetworkLittleEndianCodec::new();
    let mut out = Vec::new();
    nle.write_f64(&mut out, 123.456f64.to_bits()).unwrap();
    assert_eq!(out, 123.456f64.to_le_bytes());

    let mut input = ByteReader::new(out);
    let value = f64::from_bits(nle.read_f64(&mut input).unwrap());
    assert_eq!(value, 123.456f64);
}

#[test]
fn nle_read_string_len_over_i32_max_is_rejected() {
    // varuint(2_147_483_648) => 0x80 0x80 0x80 0x80 0x08
    let mut input = ByteReader::new(vec![0x80, 0x80, 0x80, 0x80, 0x08]);
    let err = NetworkLittleEndianCodec::new().read_string_len(&mut input);
    assert!(matches!(err, Err(Error::LengthOverflow { .. })));
}

#[test]
fn nle_write_list_len_over_i32_max_is_rejected() {
    let err = NetworkLittleEndianCodec::new().write_list_len(&mut Vec::new(), (i32::MAX as usize) + 1);
    assert!(matches!(err, Err(Error::LengthOverflow { .. })));
}
