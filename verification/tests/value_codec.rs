use grc_20::codec::primitives::{Reader, Writer};
use grc_20::codec::value::{
    canonical_payload, check_value, decode_position, decode_property_value, decode_value, encode_decimal,
    encode_property_value, encode_value, is_binary_tail_clear, is_mantissa_minimal, validate_day_part,
    validate_iso8601_date, validate_iso8601_date_for_encode, validate_month_part, validate_position,
    validate_year_part, value_identity,
};
use grc_20::error::{DecodeError, EncodeError};
use grc_20::model::value::{is_big_mantissa_divisible_by_10, is_big_mantissa_zero, twos_complement_abs_mod_10};
use grc_20::model::{
    DataType, DecimalMantissa, DictionaryBuilder, EmbeddingSubType, PropertyValue, Value, WireDictionaries,
};

fn encode(value: &Value) -> Result<Vec<u8>, EncodeError> {
    let mut dict_builder = DictionaryBuilder::new();
    let mut writer = Writer::new();
    encode_value(&mut writer, value, &mut dict_builder)?;
    Ok(writer.into_bytes())
}

fn decode(bytes: &[u8], data_type: DataType) -> Result<Value, DecodeError> {
    let dicts = WireDictionaries::default();
    let mut reader = Reader::new(bytes);
    decode_value(&mut reader, data_type, &dicts)
}

#[test]
fn test_bool_roundtrip() {
    for v in [true, false] {
        let value = Value::Bool(v);
        let dicts = WireDictionaries::default();
        let mut dict_builder = DictionaryBuilder::new();

        let mut writer = Writer::new();
        encode_value(&mut writer, &value, &mut dict_builder).unwrap();

        let mut reader = Reader::new(writer.as_bytes());
        let decoded = decode_value(&mut reader, DataType::Bool, &dicts).unwrap();

        assert_eq!(value, decoded);
    }
}

#[test]
fn test_int64_roundtrip() {
    for v in [0i64, 1, -1, i64::MAX, i64::MIN, 12345678] {
        let value = Value::Int64(v);
        let mut dict_builder = DictionaryBuilder::new();

        let mut writer = Writer::new();
        encode_value(&mut writer, &value, &mut dict_builder).unwrap();

        let dicts = dict_builder.build();
        let mut reader = Reader::new(writer.as_bytes());
        let decoded = decode_value(&mut reader, DataType::Int64, &dicts).unwrap();

        assert_eq!(value, decoded);
    }
}

#[test]
fn test_float64_roundtrip() {
    for v in [0.0, 1.0, -1.0, f64::INFINITY, f64::NEG_INFINITY, 3.14159] {
        let value = Value::Float64(f64::to_bits(v));
        let mut dict_builder = DictionaryBuilder::new();

        let mut writer = Writer::new();
        encode_value(&mut writer, &value, &mut dict_builder).unwrap();

        let dicts = dict_builder.build();
        let mut reader = Reader::new(writer.as_bytes());
        let decoded = decode_value(&mut reader, DataType::Float64, &dicts).unwrap();

        assert_eq!(value, decoded);
    }
}

#[test]
fn test_text_roundtrip() {
    let value = Value::Text { value: "hello world".to_string(), language: None };
    let mut dict_builder = DictionaryBuilder::new();

    let mut writer = Writer::new();
    encode_value(&mut writer, &value, &mut dict_builder).unwrap();

    let decode_dicts = dict_builder.build();

    let mut reader = Reader::new(writer.as_bytes());
    let decoded = decode_value(&mut reader, DataType::Text, &decode_dicts).unwrap();

    match (&value, &decoded) {
        (Value::Text { value: v1, language: l1 }, Value::Text { value: v2, language: l2 }) => {
            assert_eq!(v1, v2);
            assert_eq!(l1, l2);
        }
        _ => panic!("expected Text values"),
    }
}

#[test]
fn test_point_roundtrip() {
    let value = Value::Point { lon: f64::to_bits(-122.4194), lat: f64::to_bits(37.7749), alt: None };
    let dicts = WireDictionaries::default();
    let mut dict_builder = DictionaryBuilder::new();

    let mut writer = Writer::new();
    encode_value(&mut writer, &value, &mut dict_builder).unwrap();

    let mut reader = Reader::new(writer.as_bytes());
    let decoded = decode_value(&mut reader, DataType::Point, &dicts).unwrap();

    assert_eq!(value, decoded);

    let value_3d =
        Value::Point { lon: f64::to_bits(-122.4194), lat: f64::to_bits(37.7749), alt: Some(f64::to_bits(100.0)) };
    let mut dict_builder = DictionaryBuilder::new();

    let mut writer = Writer::new();
    encode_value(&mut writer, &value_3d, &mut dict_builder).unwrap();

    let mut reader = Reader::new(writer.as_bytes());
    let decoded_3d = decode_value(&mut reader, DataType::Point, &dicts).unwrap();

    assert_eq!(value_3d, decoded_3d);
}

#[test]
fn test_point_validation() {
    let value = Value::Point { lon: f64::to_bits(0.0), lat: f64::to_bits(91.0), alt: None };
    let mut dict_builder = DictionaryBuilder::new();
    let mut writer = Writer::new();
    let result = encode_value(&mut writer, &value, &mut dict_builder);
    assert!(result.is_err());

    let value = Value::Point { lon: f64::to_bits(181.0), lat: f64::to_bits(0.0), alt: None };
    let mut dict_builder = DictionaryBuilder::new();
    let mut writer = Writer::new();
    let result = encode_value(&mut writer, &value, &mut dict_builder);
    assert!(result.is_err());

    let value = Value::Point { lon: f64::to_bits(0.0), lat: f64::to_bits(0.0), alt: Some(f64::to_bits(f64::NAN)) };
    let mut dict_builder = DictionaryBuilder::new();
    let mut writer = Writer::new();
    let result = encode_value(&mut writer, &value, &mut dict_builder);
    assert!(result.is_err());
}

#[test]
fn test_embedding_roundtrip() {
    let value = Value::Embedding { sub_type: EmbeddingSubType::Float32, dims: 4, data: vec![0u8; 16] };
    let dicts = WireDictionaries::default();
    let mut dict_builder = DictionaryBuilder::new();

    let mut writer = Writer::new();
    encode_value(&mut writer, &value, &mut dict_builder).unwrap();

    let mut reader = Reader::new(writer.as_bytes());
    let decoded = decode_value(&mut reader, DataType::Embedding, &dicts).unwrap();

    match (&value, &decoded) {
        (
            Value::Embedding { sub_type: s1, dims: d1, data: data1 },
            Value::Embedding { sub_type: s2, dims: d2, data: data2 },
        ) => {
            assert_eq!(s1, s2);
            assert_eq!(d1, d2);
            assert_eq!(data1, data2);
        }
        _ => panic!("expected Embedding values"),
    }
}

#[test]
fn test_decimal_normalized() {
    let valid = Value::Decimal { exponent: -2, mantissa: DecimalMantissa::I64(1234) };
    let mut dict_builder = DictionaryBuilder::new();
    let mut writer = Writer::new();
    assert!(encode_value(&mut writer, &valid, &mut dict_builder).is_ok());

    let invalid = Value::Decimal { exponent: -2, mantissa: DecimalMantissa::I64(1230) };
    let mut dict_builder = DictionaryBuilder::new();
    let mut writer = Writer::new();
    assert!(encode_value(&mut writer, &invalid, &mut dict_builder).is_err());
}

#[test]
fn test_date_validation_valid() {
    assert!(validate_iso8601_date("2024").is_ok());
    assert!(validate_iso8601_date("0001").is_ok());
    assert!(validate_iso8601_date("9999").is_ok());

    assert!(validate_iso8601_date("-0100").is_ok());
    assert!(validate_iso8601_date("-2024").is_ok());

    assert!(validate_iso8601_date("2024-01").is_ok());
    assert!(validate_iso8601_date("2024-12").is_ok());
    assert!(validate_iso8601_date("-0100-03").is_ok());

    assert!(validate_iso8601_date("2024-03-15").is_ok());
    assert!(validate_iso8601_date("2024-02-29").is_ok());
    assert!(validate_iso8601_date("-0100-03-15").is_ok());
}

#[test]
fn test_date_validation_invalid() {
    assert!(validate_iso8601_date("").is_err());

    assert!(validate_iso8601_date("24").is_err());
    assert!(validate_iso8601_date("202").is_err());

    assert!(validate_iso8601_date("2024-00").is_err());
    assert!(validate_iso8601_date("2024-13").is_err());

    assert!(validate_iso8601_date("2024-03-00").is_err());
    assert!(validate_iso8601_date("2024-03-32").is_err());
    assert!(validate_iso8601_date("2024-02-30").is_err());
    assert!(validate_iso8601_date("2024-04-31").is_err());

    assert!(validate_iso8601_date("-0000").is_err());

    assert!(validate_iso8601_date("XXXX").is_err());
    assert!(validate_iso8601_date("2024-XX").is_err());

    assert!(validate_iso8601_date("2024-03-15-00").is_err());
}

#[test]
fn test_big_decimal_normalization_helpers() {
    assert!(is_big_mantissa_zero(&[]));
    assert!(is_big_mantissa_zero(&[0]));
    assert!(is_big_mantissa_zero(&[0, 0, 0]));
    assert!(!is_big_mantissa_zero(&[1]));
    assert!(!is_big_mantissa_zero(&[0, 1]));

    assert!(is_big_mantissa_divisible_by_10(&[0x0A]));
    assert!(is_big_mantissa_divisible_by_10(&[0x14]));
    assert!(is_big_mantissa_divisible_by_10(&[0x64]));
    assert!(is_big_mantissa_divisible_by_10(&[0x01, 0xF4]));

    assert!(!is_big_mantissa_divisible_by_10(&[0x01]));
    assert!(!is_big_mantissa_divisible_by_10(&[0x07]));
    assert!(!is_big_mantissa_divisible_by_10(&[0x0B]));
    assert!(!is_big_mantissa_divisible_by_10(&[0x15]));

    assert!(is_big_mantissa_divisible_by_10(&[0xF6]));
    assert!(is_big_mantissa_divisible_by_10(&[0xEC]));
    assert!(!is_big_mantissa_divisible_by_10(&[0xFF]));
    assert!(!is_big_mantissa_divisible_by_10(&[0xF9]));
}

#[test]
fn test_big_decimal_normalization_encode() {
    let valid = Value::Decimal { exponent: 0, mantissa: DecimalMantissa::Big(vec![0x07]) };
    let mut dict_builder = DictionaryBuilder::new();
    let mut writer = Writer::new();
    assert!(encode_value(&mut writer, &valid, &mut dict_builder).is_ok());

    let invalid = Value::Decimal { exponent: 0, mantissa: DecimalMantissa::Big(vec![0x0A]) };
    let mut dict_builder = DictionaryBuilder::new();
    let mut writer = Writer::new();
    assert!(encode_value(&mut writer, &invalid, &mut dict_builder).is_err());

    let invalid_zero = Value::Decimal { exponent: 1, mantissa: DecimalMantissa::Big(vec![0x00]) };
    let mut dict_builder = DictionaryBuilder::new();
    let mut writer = Writer::new();
    assert!(encode_value(&mut writer, &invalid_zero, &mut dict_builder).is_err());

    let valid_zero = Value::Decimal { exponent: 0, mantissa: DecimalMantissa::Big(vec![0x00]) };
    let mut dict_builder = DictionaryBuilder::new();
    let mut writer = Writer::new();
    assert!(encode_value(&mut writer, &valid_zero, &mut dict_builder).is_ok());
}

#[test]
fn test_date_roundtrip() {
    let dicts = WireDictionaries::default();
    let mut dict_builder = DictionaryBuilder::new();

    for date_str in ["2024", "2024-03", "2024-03-15", "-0100", "-0100-03-15"] {
        let value = Value::Date(date_str.to_string());

        let mut writer = Writer::new();
        encode_value(&mut writer, &value, &mut dict_builder).unwrap();

        let mut reader = Reader::new(writer.as_bytes());
        let decoded = decode_value(&mut reader, DataType::Date, &dicts).unwrap();

        match (&value, &decoded) {
            (Value::Date(d1), Value::Date(d2)) => {
                assert_eq!(d1, d2);
            }
            _ => panic!("expected Date values"),
        }
    }
}

#[test]
fn nan_float_is_refused() {
    assert_eq!(encode(&Value::Float64(f64::NAN.to_bits())), Err(EncodeError::FloatIsNan));
    assert_eq!(encode(&Value::Float64(0x7FF0_0000_0000_0001)), Err(EncodeError::FloatIsNan));
    assert_eq!(encode(&Value::Float64(0xFFFF_FFFF_FFFF_FFFF)), Err(EncodeError::FloatIsNan));
    assert!(encode(&Value::Float64(f64::INFINITY.to_bits())).is_ok());
}

#[test]
fn zero_decimal_needs_zero_exponent() {
    assert_eq!(
        encode(&Value::Decimal { exponent: 1, mantissa: DecimalMantissa::I64(0) }),
        Err(EncodeError::DecimalNotNormalized)
    );
    assert_eq!(encode(&Value::Decimal { exponent: 0, mantissa: DecimalMantissa::I64(0) }), Ok(vec![0, 0, 0]));
}

#[test]
fn decimal_with_trailing_zero_is_refused() {
    assert_eq!(
        encode(&Value::Decimal { exponent: -2, mantissa: DecimalMantissa::I64(1230) }),
        Err(EncodeError::DecimalNotNormalized)
    );
    // exponent -2 -> zigzag 3; tag 0; mantissa 1234 -> zigzag 2468 = [164, 19]
    assert_eq!(
        encode(&Value::Decimal { exponent: -2, mantissa: DecimalMantissa::I64(1234) }),
        Ok(vec![3, 0, 164, 19])
    );
    assert_eq!(
        encode(&Value::Decimal { exponent: 0, mantissa: DecimalMantissa::I64(-1230) }),
        Err(EncodeError::DecimalNotNormalized)
    );
    assert!(encode(&Value::Decimal { exponent: 0, mantissa: DecimalMantissa::I64(i64::MIN) }).is_ok());
}

#[test]
fn big_decimal_ten_is_refused() {
    assert_eq!(
        encode(&Value::Decimal { exponent: 0, mantissa: DecimalMantissa::Big(vec![0x0A]) }),
        Err(EncodeError::DecimalNotNormalized)
    );
    assert_eq!(
        encode(&Value::Decimal { exponent: 0, mantissa: DecimalMantissa::Big(vec![0x07]) }),
        Ok(vec![0, 1, 1, 7])
    );
}

#[test]
fn big_decimal_minus_ten_is_refused() {
    assert_eq!(
        encode(&Value::Decimal { exponent: 0, mantissa: DecimalMantissa::Big(vec![0xF6]) }),
        Err(EncodeError::DecimalNotNormalized)
    );
}

#[test]
fn big_decimal_minus_twenty_is_refused() {
    assert_eq!(
        encode(&Value::Decimal { exponent: 0, mantissa: DecimalMantissa::Big(vec![0xEC]) }),
        Err(EncodeError::DecimalNotNormalized)
    );
    assert_eq!(twos_complement_abs_mod_10(&[0xEC]), 0);
    assert_eq!(twos_complement_abs_mod_10(&[0xF9]), 7);
    assert_eq!(twos_complement_abs_mod_10(&[0xFF, 0x00]), 6);
}

#[test]
fn point_out_of_range_is_refused() {
    let point = |lat: f64, lon: f64| Value::Point { lat: lat.to_bits(), lon: lon.to_bits(), alt: None };
    assert_eq!(encode(&point(91.0, 0.0)), Err(EncodeError::LatitudeOutOfRange));
    assert_eq!(encode(&point(0.0, 181.0)), Err(EncodeError::LongitudeOutOfRange));
    assert_eq!(encode(&point(-90.000001, 0.0)), Err(EncodeError::LatitudeOutOfRange));
    assert_eq!(encode(&point(0.0, f64::NEG_INFINITY)), Err(EncodeError::LongitudeOutOfRange));
    assert_eq!(encode(&point(f64::NAN, 0.0)), Err(EncodeError::FloatIsNan));
    assert_eq!(encode(&point(91.0, 181.0)), Err(EncodeError::LongitudeOutOfRange));
    let bytes = encode(&point(90.0, 180.0)).unwrap();
    let mut expected = vec![2u8];
    expected.extend_from_slice(&180.0f64.to_le_bytes());
    expected.extend_from_slice(&90.0f64.to_le_bytes());
    assert_eq!(bytes, expected);
    assert!(encode(&point(-90.0, -180.0)).is_ok());
}

#[test]
fn embedding_length_mismatch_is_refused() {
    assert_eq!(
        encode(&Value::Embedding { sub_type: EmbeddingSubType::Float32, dims: 4, data: vec![0u8; 15] }),
        Err(EncodeError::EmbeddingDimensionMismatch { sub_type: 0, dims: 4, data_len: 15 })
    );
    assert_eq!(
        encode(&Value::Embedding { sub_type: EmbeddingSubType::Float32, dims: usize::MAX, data: vec![] }),
        Err(EncodeError::EmbeddingDimensionMismatch { sub_type: 0, dims: usize::MAX, data_len: 0 })
    );
    assert_eq!(
        encode(&Value::Embedding { sub_type: EmbeddingSubType::Int8, dims: 3, data: vec![1, 2, 3] }),
        Ok(vec![1, 3, 1, 2, 3])
    );
}

#[test]
fn embedding_with_nan_element_is_refused() {
    let mut data = vec![0u8; 8];
    data[4..8].copy_from_slice(&f32::NAN.to_le_bytes());
    assert_eq!(
        encode(&Value::Embedding { sub_type: EmbeddingSubType::Float32, dims: 2, data: data.clone() }),
        Err(EncodeError::FloatIsNan)
    );
    let mut bytes = vec![0u8, 2];
    bytes.extend_from_slice(&data);
    assert_eq!(decode(&bytes, DataType::Embedding), Err(DecodeError::FloatIsNan));
    data[4..8].copy_from_slice(&f32::INFINITY.to_le_bytes());
    assert!(encode(&Value::Embedding { sub_type: EmbeddingSubType::Float32, dims: 2, data }).is_ok());
}

#[test]
fn binary_embedding_tail_must_be_clear() {
    assert_eq!(
        decode(&[2, 9, 0x7F, 0x80], DataType::Embedding),
        Err(DecodeError::MalformedEncoding { context: "binary embedding has non-zero unused bits" })
    );
    assert_eq!(
        decode(&[2, 9, 0x7F, 0x01], DataType::Embedding),
        Ok(Value::Embedding { sub_type: EmbeddingSubType::Binary, dims: 9, data: vec![0x7F, 0x01] })
    );
    assert_eq!(
        encode(&Value::Embedding { sub_type: EmbeddingSubType::Binary, dims: 9, data: vec![0x7F, 0x80] }),
        Err(EncodeError::EmbeddingDimensionMismatch { sub_type: 2, dims: 9, data_len: 2 })
    );
    assert!(is_binary_tail_clear(16, &[0xFF, 0xFF]));
    assert!(is_binary_tail_clear(15, &[0xFF, 0x7F]));
    assert!(!is_binary_tail_clear(15, &[0xFF, 0x80]));
}

#[test]
fn iso_dates_are_accepted_and_refused() {
    for ok in ["2024", "2024-03", "2024-03-15", "2024-02-29", "-0100", "-0100-03-15", "123456789012"] {
        assert!(validate_iso8601_date(ok).is_ok(), "{}", ok);
        assert!(validate_iso8601_date_for_encode(ok).is_ok(), "{}", ok);
    }
    for bad in ["", "24", "2024-00", "2024-13", "2024-04-31", "2024-02-30", "-0000", "2024-+1", "2024-", "\u{0662}024"]
    {
        assert!(validate_iso8601_date(bad).is_err(), "{}", bad);
    }
}

#[test]
fn date_errors_give_the_reason() {
    let err = |context: &'static str| Err(DecodeError::MalformedEncoding { context });
    assert_eq!(validate_iso8601_date(""), err("DATE string is empty"));
    assert_eq!(validate_iso8601_date("24"), err("DATE year must be at least 4 digits"));
    assert_eq!(validate_iso8601_date("20x4"), err("DATE year contains non-digit characters"));
    assert_eq!(validate_iso8601_date("-0000"), err("DATE -0000 is invalid (use 0000 for 1 BCE)"));
    assert_eq!(validate_iso8601_date("2024-3"), err("DATE month must be 2 digits"));
    assert_eq!(validate_iso8601_date("2024-ab"), err("DATE month is not a valid number"));
    assert_eq!(validate_iso8601_date("2024-13"), err("DATE month out of range (must be 01-12)"));
    assert_eq!(validate_iso8601_date("2024-03-1"), err("DATE day must be 2 digits"));
    assert_eq!(validate_iso8601_date("2024-03-1x"), err("DATE day is not a valid number"));
    assert_eq!(validate_iso8601_date("2024-04-31"), err("DATE day out of range"));
    assert_eq!(validate_iso8601_date("2024-03-15-00"), err("DATE has too many components"));
    assert_eq!(
        validate_iso8601_date_for_encode("2024-04-31"),
        Err(EncodeError::InvalidDate { reason: "DATE day out of range" })
    );
    assert_eq!(validate_year_part(b"0000", false), Ok(()));
    assert_eq!(validate_month_part(b"12"), Ok(12));
    assert_eq!(validate_day_part(b"29", 2), Ok(29));
    assert_eq!(validate_day_part(b"31", 6), err_u32("DATE day out of range"));
}

fn err_u32(context: &'static str) -> Result<u32, DecodeError> {
    Err(DecodeError::MalformedEncoding { context })
}

#[test]
fn invalid_bool_is_refused() {
    assert_eq!(decode(&[2], DataType::Bool), Err(DecodeError::InvalidBool { value: 2 }));
    assert_eq!(decode(&[1], DataType::Bool), Ok(Value::Bool(true)));
    assert_eq!(decode(&[], DataType::Bool), Err(DecodeError::UnexpectedEof { context: "bool" }));
}

#[test]
fn decoded_float_must_not_be_nan() {
    assert_eq!(decode(&f64::NAN.to_le_bytes(), DataType::Float64), Err(DecodeError::FloatIsNan));
    assert_eq!(decode(&(-0.0f64).to_le_bytes(), DataType::Float64), Ok(Value::Float64(0x8000_0000_0000_0000)));
    assert_eq!(encode(&Value::Float64((-0.0f64).to_bits())), Ok(vec![0u8; 8]));
    assert_eq!(encode(&Value::Float64(1.0f64.to_bits())), Ok(1.0f64.to_le_bytes().to_vec()));
}

#[test]
fn decoded_decimal_is_checked() {
    // exponent 0, big mantissa 00 7F: redundant leading zero
    assert_eq!(decode(&[0, 1, 2, 0x00, 0x7F], DataType::Decimal), Err(DecodeError::DecimalMantissaNotMinimal));
    assert_eq!(decode(&[0, 1, 2, 0xFF, 0x80], DataType::Decimal), Err(DecodeError::DecimalMantissaNotMinimal));
    assert_eq!(
        decode(&[0, 1, 2, 0x00, 0x81], DataType::Decimal),
        Ok(Value::Decimal { exponent: 0, mantissa: DecimalMantissa::Big(vec![0x00, 0x81]) })
    );
    assert_eq!(decode(&[0, 1, 1, 0x0A], DataType::Decimal), Err(DecodeError::DecimalNotNormalized));
    assert_eq!(decode(&[2, 0, 0], DataType::Decimal), Err(DecodeError::DecimalNotNormalized));
    assert_eq!(
        decode(&[0, 2, 0], DataType::Decimal),
        Err(DecodeError::MalformedEncoding { context: "invalid decimal mantissa type" })
    );
    // exponent 2^31 is out of range: zigzag 2^32
    assert_eq!(
        decode(&[128, 128, 128, 128, 16, 0, 2], DataType::Decimal),
        Err(DecodeError::MalformedEncoding { context: "decimal exponent out of range" })
    );
    assert!(is_mantissa_minimal(&[0x00]));
    assert!(is_mantissa_minimal(&[0xFF, 0x7F]));
    assert!(!is_mantissa_minimal(&[0xFF, 0xFF]));
}

#[test]
fn decoded_point_is_checked() {
    let point = |count: u8, lon: f64, lat: f64| {
        let mut b = vec![count];
        b.extend_from_slice(&lon.to_le_bytes());
        b.extend_from_slice(&lat.to_le_bytes());
        b
    };
    assert_eq!(
        decode(&point(2, 0.0, 91.0), DataType::Point),
        Err(DecodeError::LatitudeOutOfRange { lat: 91.0f64.to_bits() })
    );
    assert_eq!(
        decode(&point(2, -181.0, 0.0), DataType::Point),
        Err(DecodeError::LongitudeOutOfRange { lon: (-181.0f64).to_bits() })
    );
    assert_eq!(decode(&point(2, f64::NAN, 0.0), DataType::Point), Err(DecodeError::FloatIsNan));
    assert_eq!(
        decode(&point(4, 0.0, 0.0), DataType::Point),
        Err(DecodeError::MalformedEncoding { context: "POINT ordinate_count must be 2 or 3" })
    );
    assert_eq!(decode(&point(3, 0.0, 0.0), DataType::Point), Err(DecodeError::UnexpectedEof { context: "point.alt" }));
    assert_eq!(
        decode(&point(2, 1.5, -2.5), DataType::Point),
        Ok(Value::Point { lat: (-2.5f64).to_bits(), lon: 1.5f64.to_bits(), alt: None })
    );
}

#[test]
fn decoded_embedding_is_checked() {
    assert_eq!(decode(&[3, 0], DataType::Embedding), Err(DecodeError::InvalidEmbeddingSubType { sub_type: 3 }));
    // dims 65537
    assert_eq!(
        decode(&[1, 129, 128, 4], DataType::Embedding),
        Err(DecodeError::LengthExceedsLimit { field: "embedding.dims", len: 65537, max: 65536 })
    );
    assert_eq!(decode(&[1, 3, 1, 2], DataType::Embedding), Err(DecodeError::UnexpectedEof { context: "embedding.data" }));
}

#[test]
fn text_language_index_is_resolved() {
    let mut dict_builder = DictionaryBuilder::new();
    let mut writer = Writer::new();
    let first = Value::Text { value: "a".to_string(), language: Some([7u8; 16]) };
    let second = Value::Text { value: "b".to_string(), language: Some([8u8; 16]) };
    let third = Value::Text { value: "c".to_string(), language: Some([7u8; 16]) };
    encode_value(&mut writer, &first, &mut dict_builder).unwrap();
    encode_value(&mut writer, &second, &mut dict_builder).unwrap();
    encode_value(&mut writer, &third, &mut dict_builder).unwrap();
    assert_eq!(writer.as_bytes(), &[1, b'a', 1, 1, b'b', 2, 1, b'c', 1]);
    let dicts = dict_builder.build();
    assert_eq!(dicts.languages, vec![[7u8; 16], [8u8; 16]]);
    let mut reader = Reader::new(writer.as_bytes());
    assert_eq!(decode_value(&mut reader, DataType::Text, &dicts), Ok(first));
    assert_eq!(decode_value(&mut reader, DataType::Text, &dicts), Ok(second));
    assert_eq!(decode_value(&mut reader, DataType::Text, &dicts), Ok(third));
    let mut reader = Reader::new(&[1, b'a', 3]);
    assert_eq!(
        decode_value(&mut reader, DataType::Text, &dicts),
        Err(DecodeError::IndexOutOfBounds { dict: "languages", index: 3, size: 3 })
    );
}

#[test]
fn text_must_be_utf8() {
    assert_eq!(decode(&[2, 0xC3, 0x28, 0], DataType::Text), Err(DecodeError::MalformedEncoding { context: "text" }));
    assert_eq!(
        decode(&[2, 0xC3, 0xA9, 0], DataType::Text),
        Ok(Value::Text { value: "\u{e9}".to_string(), language: None })
    );
}

#[test]
fn ref_index_is_resolved() {
    let mut dict_builder = DictionaryBuilder::new();
    let mut writer = Writer::new();
    encode_value(&mut writer, &Value::Ref([5u8; 16]), &mut dict_builder).unwrap();
    encode_value(&mut writer, &Value::Ref([6u8; 16]), &mut dict_builder).unwrap();
    encode_value(&mut writer, &Value::Ref([5u8; 16]), &mut dict_builder).unwrap();
    assert_eq!(writer.as_bytes(), &[0, 1, 0]);
    let dicts = dict_builder.build();
    let mut reader = Reader::new(&[1]);
    assert_eq!(decode_value(&mut reader, DataType::Ref, &dicts), Ok(Value::Ref([6u8; 16])));
    let mut reader = Reader::new(&[2]);
    assert_eq!(
        decode_value(&mut reader, DataType::Ref, &dicts),
        Err(DecodeError::IndexOutOfBounds { dict: "objects", index: 2, size: 2 })
    );
}

#[test]
fn bytes_and_string_limits_are_enforced() {
    // 64 MiB + 1
    assert_eq!(
        decode(&[129, 128, 128, 32], DataType::Bytes),
        Err(DecodeError::LengthExceedsLimit { field: "bytes", len: 67108865, max: 67108864 })
    );
    // 16 MiB + 1
    assert_eq!(
        decode(&[129, 128, 128, 8], DataType::Text),
        Err(DecodeError::LengthExceedsLimit { field: "text", len: 16777217, max: 16777216 })
    );
    assert_eq!(decode(&[3, 1, 2], DataType::Bytes), Err(DecodeError::UnexpectedEof { context: "bytes" }));
    assert_eq!(decode(&[2, 1, 2], DataType::Bytes), Ok(Value::Bytes(vec![1, 2])));
}

#[test]
fn failed_check_writes_nothing() {
    let mut dict_builder = DictionaryBuilder::new();
    let mut writer = Writer::new();
    writer.write_byte(9);
    let pv = PropertyValue { property: [1u8; 16], value: Value::Float64(f64::NAN.to_bits()) };
    assert_eq!(
        encode_property_value(&mut writer, &pv, &mut dict_builder, DataType::Float64),
        Err(EncodeError::FloatIsNan)
    );
    assert_eq!(writer.as_bytes(), &[9]);
    assert!(dict_builder.build().properties.is_empty());
    assert_eq!(check_value(&pv.value), Err(EncodeError::FloatIsNan));
}

#[test]
fn property_value_round_trips() {
    let mut dict_builder = DictionaryBuilder::new();
    let mut writer = Writer::new();
    let a = PropertyValue { property: [1u8; 16], value: Value::Int64(150) };
    let b = PropertyValue { property: [2u8; 16], value: Value::Bool(true) };
    encode_property_value(&mut writer, &a, &mut dict_builder, DataType::Int64).unwrap();
    encode_property_value(&mut writer, &b, &mut dict_builder, DataType::Bool).unwrap();
    assert_eq!(writer.as_bytes(), &[0, 172, 2, 1, 1]);
    let dicts = dict_builder.build();
    assert_eq!(dicts.properties, vec![([1u8; 16], DataType::Int64), ([2u8; 16], DataType::Bool)]);
    let mut reader = Reader::new(writer.as_bytes());
    assert_eq!(decode_property_value(&mut reader, &dicts), Ok(a));
    assert_eq!(decode_property_value(&mut reader, &dicts), Ok(b));
}

#[test]
fn encode_decimal_writes_tagged_mantissa() {
    let mut writer = Writer::new();
    encode_decimal(&mut writer, 1, &DecimalMantissa::Big(vec![0x01, 0x01])).unwrap();
    assert_eq!(writer.as_bytes(), &[2, 1, 2, 1, 1]);
    let mut writer = Writer::new();
    assert_eq!(
        encode_decimal(&mut writer, 0, &DecimalMantissa::Big(vec![0x00, 0x64])),
        Err(EncodeError::DecimalNotNormalized)
    );
    assert!(writer.as_bytes().is_empty());
}

#[test]
fn positions_are_validated() {
    assert_eq!(validate_position("aZ09"), Ok(()));
    assert_eq!(validate_position(""), Ok(()));
    assert_eq!(validate_position(&"a".repeat(64)), Ok(()));
    assert_eq!(validate_position(&"a".repeat(65)), Err(EncodeError::PositionTooLong));
    assert_eq!(validate_position("a b"), Err(EncodeError::InvalidPositionChar));
    assert_eq!(validate_position("\u{e9}"), Err(EncodeError::InvalidPositionChar));
    let mut reader = Reader::new(&[3, b'a', b'_', b'!']);
    assert_eq!(decode_position(&mut reader), Err(DecodeError::InvalidPositionChar { char: '_' }));
    let mut reader = Reader::new(&[3, b'a', 0xC3, 0xA9]);
    assert_eq!(decode_position(&mut reader), Err(DecodeError::InvalidPositionChar { char: '\u{e9}' }));
    let mut reader = Reader::new(&[2, b'a', b'7', 99]);
    assert_eq!(decode_position(&mut reader), Ok("a7".to_string()));
    let mut reader = Reader::new(&[65]);
    assert_eq!(
        decode_position(&mut reader),
        Err(DecodeError::LengthExceedsLimit { field: "position", len: 65, max: 64 })
    );
}

#[test]
fn canonical_payloads_have_exact_bytes() {
    assert_eq!(canonical_payload(&Value::Bool(true)), Some(vec![1]));
    assert_eq!(canonical_payload(&Value::Int64(-2)), Some((-2i64).to_le_bytes().to_vec()));
    assert_eq!(canonical_payload(&Value::Timestamp(258)), Some(vec![2, 1, 0, 0, 0, 0, 0, 0]));
    assert_eq!(canonical_payload(&Value::Float64((-0.0f64).to_bits())), Some(vec![0u8; 8]));
    assert_eq!(
        canonical_payload(&Value::Decimal { exponent: -2, mantissa: DecimalMantissa::I64(1234) }),
        Some(vec![3, 164, 19])
    );
    assert_eq!(
        canonical_payload(&Value::Decimal { exponent: 0, mantissa: DecimalMantissa::Big(vec![1, 2]) }),
        Some(vec![0, 1, 2])
    );
    assert_eq!(
        canonical_payload(&Value::Text { value: "h\u{e9}".to_string(), language: Some([1u8; 16]) }),
        Some(vec![b'h', 0xC3, 0xA9])
    );
    assert_eq!(canonical_payload(&Value::Bytes(vec![5, 6])), Some(vec![5, 6]));
    assert_eq!(canonical_payload(&Value::Date("2024".to_string())), Some(b"2024".to_vec()));
    let mut point = 1.0f64.to_le_bytes().to_vec();
    point.extend_from_slice(&0.0f64.to_le_bytes());
    assert_eq!(
        canonical_payload(&Value::Point { lat: 1.0f64.to_bits(), lon: (-0.0f64).to_bits(), alt: None }),
        Some(point)
    );
    assert_eq!(
        canonical_payload(&Value::Embedding { sub_type: EmbeddingSubType::Int8, dims: 2, data: vec![9, 8] }),
        Some(vec![1, 2, 0, 0, 0, 9, 8])
    );
    assert_eq!(canonical_payload(&Value::Ref([4u8; 16])), Some(vec![4u8; 16]));
}

#[test]
fn value_identity_hashes_property_and_payload() {
    let property = [1u8; 16];
    let id = value_identity(&property, &Value::Bytes(b"abc".to_vec())).unwrap();
    assert_eq!(grc_20::model::format_id(&id), "9d9e349f421bcb4deffcd11890f31c3c");
    let id = value_identity(&property, &Value::Text { value: "abc".to_string(), language: None }).unwrap();
    assert_eq!(grc_20::model::format_id(&id), "237c0fb9984f71e14a3e3d54dbafe74e");
    let id =
        value_identity(&property, &Value::Text { value: "abc".to_string(), language: Some([9u8; 16]) }).unwrap();
    assert_eq!(grc_20::model::format_id(&id), "c4b92ffa96225107d41de395e6b6fcaf");
}
