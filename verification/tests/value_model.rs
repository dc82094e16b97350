use grc_20::model::ieee::{exceeds_bits, has_nan_single, is_nan_bits, normalize_zero_bits, DOUBLE_180, DOUBLE_90};
use grc_20::model::value::{i64_divisible_by_10, is_decimal_normalized};
use grc_20::model::{DataType, DecimalMantissa, EmbeddingSubType, Value};

#[test]
fn test_embedding_bytes_for_dims() {
    assert_eq!(EmbeddingSubType::Float32.bytes_for_dims(10), 40);
    assert_eq!(EmbeddingSubType::Int8.bytes_for_dims(10), 10);
    assert_eq!(EmbeddingSubType::Binary.bytes_for_dims(10), 2);
    assert_eq!(EmbeddingSubType::Binary.bytes_for_dims(8), 1);
    assert_eq!(EmbeddingSubType::Binary.bytes_for_dims(9), 2);
}

#[test]
fn test_value_validation_nan() {
    assert!(Value::Float64(f64::to_bits(f64::NAN)).validate().is_some());
    assert!(Value::Float64(f64::to_bits(f64::INFINITY)).validate().is_none());
    assert!(Value::Float64(f64::to_bits(-f64::INFINITY)).validate().is_none());
    assert!(Value::Float64(f64::to_bits(42.0)).validate().is_none());
}

#[test]
fn test_value_validation_point() {
    let point = |lat: f64, lon: f64| Value::Point { lat: lat.to_bits(), lon: lon.to_bits(), alt: None };
    assert!(point(91.0, 0.0).validate().is_some());
    assert!(point(-91.0, 0.0).validate().is_some());
    assert!(point(0.0, 181.0).validate().is_some());
    assert!(point(0.0, -181.0).validate().is_some());
    assert!(point(90.0, 180.0).validate().is_none());
    assert!(point(-90.0, -180.0).validate().is_none());
}

#[test]
fn test_decimal_normalization() {
    let zero_bad = Value::Decimal { exponent: 1, mantissa: DecimalMantissa::I64(0) };
    assert!(zero_bad.validate().is_some());

    let trailing = Value::Decimal { exponent: 0, mantissa: DecimalMantissa::I64(1230) };
    assert!(trailing.validate().is_some());

    let valid = Value::Decimal { exponent: -2, mantissa: DecimalMantissa::I64(1234) };
    assert!(valid.validate().is_none());
}

#[test]
fn validate_reports_the_broken_rule() {
    assert_eq!(Value::Float64(f64::NAN.to_bits()).validate(), Some("NaN is not allowed in Float64"));
    assert_eq!(
        Value::Decimal { exponent: 1, mantissa: DecimalMantissa::Big(vec![0, 0]) }.validate(),
        Some("zero DECIMAL must have exponent 0")
    );
    assert_eq!(
        Value::Decimal { exponent: 0, mantissa: DecimalMantissa::Big(vec![0x01, 0xF4]) }.validate(),
        Some("DECIMAL mantissa has trailing zeros (not normalized)")
    );
    assert_eq!(
        Value::Point { lat: 91.0f64.to_bits(), lon: 181.0f64.to_bits(), alt: None }.validate(),
        Some("latitude out of range [-90, +90]")
    );
    assert_eq!(
        Value::Point { lat: 0, lon: 181.0f64.to_bits(), alt: None }.validate(),
        Some("longitude out of range [-180, +180]")
    );
    assert_eq!(
        Value::Point { lat: 0, lon: 0, alt: Some(f64::NAN.to_bits()) }.validate(),
        Some("NaN is not allowed in Point coordinates")
    );
    assert_eq!(
        Value::Embedding { sub_type: EmbeddingSubType::Int8, dims: 2, data: vec![1] }.validate(),
        Some("embedding data length doesn't match dims")
    );
    assert_eq!(
        Value::Embedding { sub_type: EmbeddingSubType::Float32, dims: 1, data: f32::NAN.to_le_bytes().to_vec() }
            .validate(),
        Some("NaN is not allowed in float32 embedding")
    );
    assert_eq!(Value::Text { value: "x".to_string(), language: None }.validate(), None);
}

#[test]
fn data_types_have_their_codes() {
    let all = [
        (1u8, DataType::Bool),
        (2, DataType::Int64),
        (3, DataType::Float64),
        (4, DataType::Decimal),
        (5, DataType::Text),
        (6, DataType::Bytes),
        (7, DataType::Timestamp),
        (8, DataType::Date),
        (9, DataType::Point),
        (10, DataType::Embedding),
        (11, DataType::Ref),
    ];
    for (code, data_type) in all {
        assert_eq!(DataType::from_u8(code), Some(data_type));
        assert_eq!(data_type.code(), code);
    }
    assert_eq!(DataType::from_u8(0), None);
    assert_eq!(DataType::from_u8(12), None);
    assert_eq!(EmbeddingSubType::from_u8(0), Some(EmbeddingSubType::Float32));
    assert_eq!(EmbeddingSubType::from_u8(1), Some(EmbeddingSubType::Int8));
    assert_eq!(EmbeddingSubType::from_u8(2), Some(EmbeddingSubType::Binary));
    assert_eq!(EmbeddingSubType::from_u8(3), None);
    assert_eq!(EmbeddingSubType::Binary.code(), 2);
}

#[test]
fn values_know_their_data_type() {
    assert_eq!(Value::Bool(true).data_type(), DataType::Bool);
    assert_eq!(Value::Timestamp(0).data_type(), DataType::Timestamp);
    assert_eq!(Value::Ref([0u8; 16]).data_type(), DataType::Ref);
    assert_eq!(Value::Point { lat: 0, lon: 0, alt: None }.data_type(), DataType::Point);
}

#[test]
fn checked_bytes_for_dims_refuses_overflow() {
    assert_eq!(EmbeddingSubType::Float32.checked_bytes_for_dims(usize::MAX), None);
    assert_eq!(EmbeddingSubType::Float32.checked_bytes_for_dims(usize::MAX / 4), Some(usize::MAX / 4 * 4));
    assert_eq!(EmbeddingSubType::Binary.checked_bytes_for_dims(usize::MAX), Some(usize::MAX / 8 + 1));
    assert_eq!(EmbeddingSubType::Binary.bytes_for_dims(0), 0);
}

#[test]
fn mantissa_predicates() {
    assert!(DecimalMantissa::I64(0).is_zero());
    assert!(!DecimalMantissa::I64(-1).is_zero());
    assert!(DecimalMantissa::Big(vec![]).is_zero());
    assert!(DecimalMantissa::I64(-120).has_trailing_zeros());
    assert!(!DecimalMantissa::I64(0).has_trailing_zeros());
    assert!(!DecimalMantissa::I64(121).has_trailing_zeros());
    assert!(DecimalMantissa::Big(vec![0x64]).has_trailing_zeros());
    assert!(!DecimalMantissa::Big(vec![0x0A, 0x01]).has_trailing_zeros());
    assert!(!DecimalMantissa::Big(vec![0x00]).has_trailing_zeros());
    assert!(i64_divisible_by_10(i64::MIN + 8));
    assert!(!i64_divisible_by_10(i64::MIN));
    assert!(i64_divisible_by_10(-10));
    assert!(is_decimal_normalized(5, &DecimalMantissa::I64(3)));
    assert!(!is_decimal_normalized(5, &DecimalMantissa::I64(30)));
}

#[test]
fn bit_patterns_agree_with_floating_point() {
    let samples = [
        0.0f64,
        -0.0,
        1.0,
        -1.0,
        89.999999,
        90.0,
        90.00000000000001,
        -90.0,
        -90.00000000000001,
        179.9,
        180.0,
        180.00000000000003,
        -180.0,
        -181.0,
        f64::MIN_POSITIVE,
        f64::MAX,
        f64::MIN,
        f64::INFINITY,
        f64::NEG_INFINITY,
        f64::NAN,
        -f64::NAN,
        f64::EPSILON,
    ];
    for x in samples {
        let bits = x.to_bits();
        assert_eq!(is_nan_bits(bits), x.is_nan(), "{}", x);
        assert_eq!(exceeds_bits(bits, DOUBLE_90), x < -90.0 || x > 90.0, "{}", x);
        assert_eq!(exceeds_bits(bits, DOUBLE_180), x < -180.0 || x > 180.0, "{}", x);
        let normalized = f64::from_bits(normalize_zero_bits(bits));
        if x == 0.0 {
            assert_eq!(normalized.to_bits(), 0);
        } else {
            assert_eq!(normalized.to_bits(), bits);
        }
    }
    assert_eq!(DOUBLE_90, 90.0f64.to_bits());
    assert_eq!(DOUBLE_180, 180.0f64.to_bits());
}

#[test]
fn single_precision_nan_is_found() {
    let floats = [0.0f32, 1.0, f32::INFINITY, f32::NEG_INFINITY, f32::MAX, -0.0];
    let mut data = Vec::new();
    for x in floats {
        data.extend_from_slice(&x.to_le_bytes());
    }
    assert!(!has_nan_single(&data));
    data.extend_from_slice(&f32::NAN.to_le_bytes());
    assert!(has_nan_single(&data));
    assert!(has_nan_single(&0xFF80_0001u32.to_le_bytes()));
    assert!(!has_nan_single(&[0xFF, 0xFF, 0xFF]));
    let mut data = f32::NAN.to_le_bytes().to_vec();
    data.extend_from_slice(&[0, 0, 0]);
    assert!(has_nan_single(&data));
}
