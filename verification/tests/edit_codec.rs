use grc_20::codec::edit::{
    checked_decompressed, collect_edit_ids, decode_edit, decode_frame, decompress_zstd, encode_edit,
    encode_edit_compressed, frame_compressed, is_valid_edit,
};
use grc_20::error::{DecodeError, EncodeError};
use grc_20::limits::{MAGIC_COMPRESSED, MAGIC_UNCOMPRESSED, MAX_EDIT_SIZE};
use grc_20::model::{
    CreateEntity, CreateProperty, CreateRelation, DataType, DecimalMantissa, DeleteEntity, DeleteRelation, Edit,
    EmbeddingSubType, Op, PropertyValue, UpdateEntity, UpdateRelation, Value,
};

fn make_test_edit() -> Edit {
    Edit {
        id: [1u8; 16],
        name: "Test Edit".to_string(),
        authors: vec![[2u8; 16]],
        created_at: 1234567890,
        ops: vec![
            Op::CreateProperty(CreateProperty { id: [10u8; 16], data_type: DataType::Text }),
            Op::CreateEntity(CreateEntity {
                id: [3u8; 16],
                values: vec![PropertyValue {
                    property: [10u8; 16],
                    value: Value::Text { value: "Hello".to_string(), language: None },
                }],
            }),
        ],
    }
}

fn make_rich_edit() -> Edit {
    let text = |s: &str, language: Option<[u8; 16]>| Value::Text { value: s.to_string(), language };
    Edit {
        id: [7u8; 16],
        name: "Rich \u{00e9}dit".to_string(),
        authors: vec![[2u8; 16], [4u8; 16]],
        created_at: -42,
        ops: vec![
            Op::CreateProperty(CreateProperty { id: [10u8; 16], data_type: DataType::Text }),
            Op::CreateEntity(CreateEntity {
                id: [3u8; 16],
                values: vec![
                    PropertyValue { property: [10u8; 16], value: text("Hello", None) },
                    PropertyValue { property: [10u8; 16], value: text("Bonjour", Some([50u8; 16])) },
                    PropertyValue { property: [11u8; 16], value: Value::Bool(true) },
                    PropertyValue { property: [12u8; 16], value: Value::Int64(-5) },
                    PropertyValue { property: [13u8; 16], value: Value::Float64(3.25f64.to_bits()) },
                    PropertyValue {
                        property: [14u8; 16],
                        value: Value::Decimal { exponent: -2, mantissa: DecimalMantissa::I64(1234) },
                    },
                    PropertyValue {
                        property: [15u8; 16],
                        value: Value::Decimal { exponent: 3, mantissa: DecimalMantissa::Big(vec![0x01, 0x00, 0x01]) },
                    },
                    PropertyValue { property: [16u8; 16], value: Value::Bytes(vec![0, 1, 2, 255]) },
                    PropertyValue { property: [17u8; 16], value: Value::Timestamp(1_700_000_000_000_000) },
                    PropertyValue { property: [18u8; 16], value: Value::Date("2024-03-15".to_string()) },
                    PropertyValue {
                        property: [19u8; 16],
                        value: Value::Point {
                            lat: 37.7749f64.to_bits(),
                            lon: (-122.4194f64).to_bits(),
                            alt: Some(12.5f64.to_bits()),
                        },
                    },
                    PropertyValue {
                        property: [20u8; 16],
                        value: Value::Embedding { sub_type: EmbeddingSubType::Binary, dims: 9, data: vec![0x7F, 0x01] },
                    },
                    PropertyValue { property: [21u8; 16], value: Value::Ref([60u8; 16]) },
                ],
            }),
            Op::UpdateEntity(UpdateEntity {
                id: [3u8; 16],
                set_properties: vec![PropertyValue { property: [11u8; 16], value: Value::Bool(false) }],
                add_values: vec![PropertyValue { property: [12u8; 16], value: Value::Int64(i64::MIN) }],
                remove_values: vec![PropertyValue { property: [10u8; 16], value: text("Hello", None) }],
                unset_properties: vec![[16u8; 16], [99u8; 16]],
            }),
            Op::CreateRelation(CreateRelation {
                id: Some([70u8; 16]),
                from: [3u8; 16],
                to: [60u8; 16],
                relation_type: [80u8; 16],
                position: Some("a0Z".to_string()),
                verified: Some(true),
            }),
            Op::CreateRelation(CreateRelation {
                id: None,
                from: [60u8; 16],
                to: [3u8; 16],
                relation_type: [80u8; 16],
                position: None,
                verified: None,
            }),
            Op::UpdateRelation(UpdateRelation { id: [70u8; 16], position: None, verified: Some(false) }),
            Op::DeleteRelation(DeleteRelation { id: [70u8; 16] }),
            Op::DeleteEntity(DeleteEntity { id: [3u8; 16] }),
        ],
    }
}

#[test]
fn test_edit_roundtrip() {
    let edit = make_test_edit();

    let encoded = encode_edit(&edit).unwrap();
    let decoded = decode_edit(&encoded).unwrap();

    assert_eq!(edit.id, decoded.id);
    assert_eq!(edit.name, decoded.name);
    assert_eq!(edit.authors, decoded.authors);
    assert_eq!(edit.created_at, decoded.created_at);
    assert_eq!(edit.ops.len(), decoded.ops.len());
}

#[test]
fn test_edit_compressed_roundtrip() {
    let edit = make_test_edit();

    let encoded = encode_edit_compressed(&edit, 3).unwrap();
    let decoded = decode_edit(&encoded).unwrap();

    assert_eq!(edit.id, decoded.id);
    assert_eq!(edit.name, decoded.name);
    assert_eq!(edit.authors, decoded.authors);
    assert_eq!(edit.created_at, decoded.created_at);
    assert_eq!(edit.ops.len(), decoded.ops.len());
}

#[test]
fn test_compression_magic() {
    let edit = make_test_edit();

    let uncompressed = encode_edit(&edit).unwrap();
    let compressed = encode_edit_compressed(&edit, 3).unwrap();

    assert_eq!(&uncompressed[0..4], b"GRC2");
    assert_eq!(&compressed[0..5], b"GRC2Z");
}

#[test]
fn test_invalid_magic() {
    let data = b"XXXX";
    let result = decode_edit(data);
    assert!(matches!(result, Err(DecodeError::InvalidMagic { .. })));
}

#[test]
fn test_unsupported_version() {
    let mut data = Vec::new();
    data.extend_from_slice(&MAGIC_UNCOMPRESSED);
    data.push(99);
    data.extend_from_slice(&[0u8; 100]);

    let result = decode_edit(&data);
    assert!(matches!(result, Err(DecodeError::UnsupportedVersion { version: 99 })));
}

#[test]
fn test_empty_edit() {
    let edit = Edit { id: [0u8; 16], name: String::new(), authors: vec![], created_at: 0, ops: vec![] };

    let encoded = encode_edit(&edit).unwrap();
    let decoded = decode_edit(&encoded).unwrap();

    assert_eq!(edit.id, decoded.id);
    assert!(decoded.name.is_empty());
    assert!(decoded.authors.is_empty());
    assert!(decoded.ops.is_empty());
}

#[test]
fn empty_edit_has_exact_bytes() {
    let edit = Edit { id: [0u8; 16], name: String::new(), authors: vec![], created_at: 0, ops: vec![] };
    let encoded = encode_edit(&edit).unwrap();
    // magic, version, id, empty name, no authors, time 0, four empty dictionaries, no ops
    let mut expected = vec![0x47, 0x52, 0x43, 0x32, 0x01];
    expected.extend_from_slice(&[0u8; 16]);
    expected.extend_from_slice(&[0, 0, 0, 0, 0, 0, 0, 0]);
    assert_eq!(encoded, expected);
    assert!(encoded.len() >= 5 + 16 + 3);
}

#[test]
fn minimal_edit_round_trips_structurally() {
    let edit = Edit {
        id: [1u8; 16],
        name: "t".to_string(),
        authors: vec![[2u8; 16]],
        created_at: 1234567890,
        ops: vec![
            Op::CreateProperty(CreateProperty { id: [10u8; 16], data_type: DataType::Text }),
            Op::CreateEntity(CreateEntity {
                id: [3u8; 16],
                values: vec![PropertyValue {
                    property: [10u8; 16],
                    value: Value::Text { value: "Hello".to_string(), language: None },
                }],
            }),
        ],
    };
    let encoded = encode_edit(&edit).unwrap();
    let decoded = decode_edit(&encoded).unwrap();
    assert_eq!(decoded, edit);
    assert_eq!(decoded.ops.len(), 2);
}

#[test]
fn minimal_edit_has_exact_bytes() {
    let edit = Edit {
        id: [1u8; 16],
        name: "t".to_string(),
        authors: vec![[2u8; 16]],
        created_at: 1234567890,
        ops: vec![
            Op::CreateProperty(CreateProperty { id: [10u8; 16], data_type: DataType::Text }),
            Op::CreateEntity(CreateEntity {
                id: [3u8; 16],
                values: vec![PropertyValue {
                    property: [10u8; 16],
                    value: Value::Text { value: "Hello".to_string(), language: None },
                }],
            }),
        ],
    };
    let mut expected: Vec<u8> = vec![0x47, 0x52, 0x43, 0x32, 0x01];
    expected.extend_from_slice(&[1u8; 16]);
    expected.extend_from_slice(&[1, b't']);
    expected.push(1);
    expected.extend_from_slice(&[2u8; 16]);
    // zigzag(1234567890) = 2469135780
    expected.extend_from_slice(&[164, 139, 176, 153, 9]);
    // one property, of type text (5)
    expected.push(1);
    expected.extend_from_slice(&[10u8; 16]);
    expected.push(5);
    // no relation types, languages, objects
    expected.extend_from_slice(&[0, 0, 0]);
    // two ops
    expected.push(2);
    expected.push(1);
    expected.extend_from_slice(&[10u8; 16]);
    expected.push(5);
    expected.push(2);
    expected.extend_from_slice(&[3u8; 16]);
    expected.push(1);
    expected.push(0);
    expected.extend_from_slice(&[5, b'H', b'e', b'l', b'l', b'o']);
    expected.push(0);
    assert_eq!(encode_edit(&edit).unwrap(), expected);
}

#[test]
fn compressed_edit_round_trips_structurally() {
    let edit = make_test_edit();
    let encoded = encode_edit_compressed(&edit, 3).unwrap();
    assert_eq!(&encoded[0..5], &MAGIC_COMPRESSED);
    assert_eq!(decode_edit(&encoded).unwrap(), edit);
}

#[test]
fn rich_edit_round_trips() {
    let edit = make_rich_edit();
    let encoded = encode_edit(&edit).unwrap();
    assert_eq!(decode_edit(&encoded).unwrap(), edit);
    let compressed = encode_edit_compressed(&edit, 1).unwrap();
    assert_eq!(decode_edit(&compressed).unwrap(), edit);
}

#[test]
fn encoding_is_deterministic() {
    let a = encode_edit(&make_rich_edit()).unwrap();
    let b = encode_edit(&make_rich_edit()).unwrap();
    assert_eq!(a, b);
}

#[test]
fn encoding_starts_with_magic_and_version() {
    let encoded = encode_edit(&make_rich_edit()).unwrap();
    assert_eq!(&encoded[0..5], &[0x47, 0x52, 0x43, 0x32, 0x01]);
    let compressed = encode_edit_compressed(&make_rich_edit(), 3).unwrap();
    assert_eq!(&compressed[0..5], &[0x47, 0x52, 0x43, 0x32, 0x5A]);
}

#[test]
fn negative_zero_comes_back_as_positive_zero() {
    let mut edit = make_test_edit();
    edit.ops.push(Op::CreateEntity(CreateEntity {
        id: [4u8; 16],
        values: vec![PropertyValue { property: [30u8; 16], value: Value::Float64((-0.0f64).to_bits()) }],
    }));
    let decoded = decode_edit(&encode_edit(&edit).unwrap()).unwrap();
    match &decoded.ops[2] {
        Op::CreateEntity(ce) => assert_eq!(ce.values[0].value, Value::Float64(0)),
        _ => panic!("expected CreateEntity"),
    }
}

#[test]
fn dictionaries_are_in_first_seen_order() {
    let edit = Edit {
        id: [0u8; 16],
        name: String::new(),
        authors: vec![],
        created_at: 0,
        ops: vec![
            Op::DeleteEntity(DeleteEntity { id: [9u8; 16] }),
            Op::DeleteEntity(DeleteEntity { id: [8u8; 16] }),
            Op::DeleteEntity(DeleteEntity { id: [9u8; 16] }),
        ],
    };
    let encoded = encode_edit(&edit).unwrap();
    let mut expected: Vec<u8> = vec![0x47, 0x52, 0x43, 0x32, 0x01];
    expected.extend_from_slice(&[0u8; 16]);
    expected.extend_from_slice(&[0, 0, 0]);
    expected.extend_from_slice(&[0, 0, 0]);
    expected.push(2);
    expected.extend_from_slice(&[9u8; 16]);
    expected.extend_from_slice(&[8u8; 16]);
    expected.push(3);
    expected.extend_from_slice(&[4, 0, 4, 1, 4, 0]);
    assert_eq!(encoded, expected);
}

#[test]
fn unset_property_is_added_as_bool() {
    let edit = Edit {
        id: [0u8; 16],
        name: String::new(),
        authors: vec![],
        created_at: 0,
        ops: vec![Op::UpdateEntity(UpdateEntity {
            id: [3u8; 16],
            set_properties: vec![],
            add_values: vec![],
            remove_values: vec![],
            unset_properties: vec![[5u8; 16]],
        })],
    };
    let encoded = encode_edit(&edit).unwrap();
    // property dictionary: one entry, id 05.., type code 1
    assert_eq!(encoded[24], 1);
    assert_eq!(&encoded[25..41], &[5u8; 16]);
    assert_eq!(encoded[41], 1);
    assert_eq!(decode_edit(&encoded).unwrap(), edit);
}

#[test]
fn encode_fails_with_first_invalid_value() {
    let mut edit = make_test_edit();
    edit.ops.push(Op::CreateEntity(CreateEntity {
        id: [4u8; 16],
        values: vec![
            PropertyValue { property: [30u8; 16], value: Value::Date("2024-13".to_string()) },
            PropertyValue { property: [31u8; 16], value: Value::Float64(f64::NAN.to_bits()) },
        ],
    }));
    assert_eq!(
        encode_edit(&edit),
        Err(EncodeError::InvalidDate { reason: "DATE month out of range (must be 01-12)" })
    );
    assert_eq!(
        encode_edit_compressed(&edit, 3),
        Err(EncodeError::InvalidDate { reason: "DATE month out of range (must be 01-12)" })
    );
}

#[test]
fn encode_fails_on_invalid_position() {
    let mut edit = make_test_edit();
    edit.ops.push(Op::CreateRelation(CreateRelation {
        id: None,
        from: [1u8; 16],
        to: [2u8; 16],
        relation_type: [3u8; 16],
        position: Some("a-b".to_string()),
        verified: None,
    }));
    assert_eq!(encode_edit(&edit), Err(EncodeError::InvalidPositionChar));
    let long: String = "a".repeat(65);
    edit.ops[2] = Op::UpdateRelation(UpdateRelation { id: [1u8; 16], position: Some(long), verified: None });
    assert_eq!(encode_edit(&edit), Err(EncodeError::PositionTooLong));
}

#[test]
fn short_input_ends_in_magic() {
    assert_eq!(decode_edit(b"GRC"), Err(DecodeError::UnexpectedEof { context: "magic" }));
    assert_eq!(decode_edit(b""), Err(DecodeError::UnexpectedEof { context: "magic" }));
}

#[test]
fn unknown_magic_is_reported_with_its_bytes() {
    assert_eq!(decode_edit(b"XXXXrest"), Err(DecodeError::InvalidMagic { found: [b'X', b'X', b'X', b'X'] }));
}

#[test]
fn version_99_is_unsupported() {
    let mut data = b"GRC2".to_vec();
    data.push(0x63);
    data.extend_from_slice(&[0u8; 40]);
    assert_eq!(decode_edit(&data), Err(DecodeError::UnsupportedVersion { version: 99 }));
}

fn handcrafted_header() -> Vec<u8> {
    let mut data = b"GRC2".to_vec();
    data.push(1);
    data.extend_from_slice(&[0u8; 16]);
    data.extend_from_slice(&[0, 0, 0]);
    data
}

#[test]
fn property_index_out_of_bounds() {
    let mut data = handcrafted_header();
    data.push(3);
    for i in 0..3u8 {
        data.extend_from_slice(&[20 + i; 16]);
        data.push(1);
    }
    data.extend_from_slice(&[0, 0, 0]);
    data.push(1);
    data.push(2);
    data.extend_from_slice(&[3u8; 16]);
    data.push(1);
    data.push(5);
    data.push(1);
    assert_eq!(
        decode_edit(&data),
        Err(DecodeError::IndexOutOfBounds { dict: "properties", index: 5, size: 3 })
    );
}

#[test]
fn uncompressed_size_guard() {
    let mut data = b"GRC2Z".to_vec();
    data.extend_from_slice(&[128, 148, 235, 220, 3]);
    data.extend_from_slice(&[0x28, 0xB5, 0x2F, 0xFD, 0, 0, 0]);
    assert_eq!(
        decode_edit(&data),
        Err(DecodeError::LengthExceedsLimit {
            field: "uncompressed_size",
            len: 1_000_000_000,
            max: MAX_EDIT_SIZE as u64
        })
    );
}

#[test]
fn garbage_stream_fails_to_decompress() {
    let mut data = b"GRC2Z".to_vec();
    data.push(10);
    data.extend_from_slice(&[1, 2, 3, 4, 5, 6, 7, 8]);
    match decode_edit(&data) {
        Err(DecodeError::DecompressionFailed { msg }) => assert!(!msg.is_empty()),
        other => panic!("expected DecompressionFailed, got {:?}", other),
    }
    assert!(matches!(decompress_zstd(&data[5..]), Err(DecodeError::DecompressionFailed { .. })));
}

#[test]
fn declared_size_must_match() {
    let edit = make_test_edit();
    let uncompressed = encode_edit(&edit).unwrap();
    let compressed = encode_edit_compressed(&edit, 3).unwrap();
    assert!(uncompressed.len() < 127);
    assert_eq!(compressed[5] as usize, uncompressed.len());
    assert_ne!(&compressed[6..], &uncompressed[..]);
    let reframed = frame_compressed(uncompressed.len() + 1, &compressed[6..]);
    assert_eq!(
        decode_edit(&reframed),
        Err(DecodeError::UncompressedSizeMismatch {
            declared: uncompressed.len() as u64 + 1,
            actual: uncompressed.len() as u64
        })
    );
    assert_eq!(decompress_zstd(&compressed[5..]).unwrap(), uncompressed);
}

#[test]
fn frame_compressed_has_exact_bytes() {
    assert_eq!(frame_compressed(300, &[9, 8, 7]), vec![0x47, 0x52, 0x43, 0x32, 0x5A, 172, 2, 9, 8, 7]);
}

#[test]
fn checked_decompressed_maps_each_outcome() {
    assert_eq!(checked_decompressed(3, Ok(vec![1, 2, 3])), Ok(vec![1, 2, 3]));
    assert_eq!(
        checked_decompressed(4, Ok(vec![1, 2, 3])),
        Err(DecodeError::UncompressedSizeMismatch { declared: 4, actual: 3 })
    );
    assert_eq!(
        checked_decompressed(4, Err("bad frame".to_string())),
        Err(DecodeError::DecompressionFailed { msg: "bad frame".to_string() })
    );
}

#[test]
fn dictionary_limits_are_enforced() {
    let mut data = handcrafted_header();
    // 1_000_001 properties
    data.extend_from_slice(&[193, 132, 61]);
    assert_eq!(
        decode_edit(&data),
        Err(DecodeError::LengthExceedsLimit { field: "properties", len: 1_000_001, max: 1_000_000 })
    );
    let mut data = handcrafted_header();
    data.extend_from_slice(&[0, 0, 0, 0]);
    data.extend_from_slice(&[193, 132, 61]);
    assert_eq!(
        decode_edit(&data),
        Err(DecodeError::LengthExceedsLimit { field: "ops", len: 1_000_001, max: 1_000_000 })
    );
}

#[test]
fn author_limit_is_enforced() {
    let mut data = b"GRC2".to_vec();
    data.push(1);
    data.extend_from_slice(&[0u8; 16]);
    data.push(0);
    // 1001 authors
    data.extend_from_slice(&[233, 7]);
    assert_eq!(
        decode_edit(&data),
        Err(DecodeError::LengthExceedsLimit { field: "authors", len: 1001, max: 1000 })
    );
}

#[test]
fn invalid_data_type_in_dictionary() {
    let mut data = handcrafted_header();
    data.push(1);
    data.extend_from_slice(&[20u8; 16]);
    data.push(12);
    assert_eq!(decode_edit(&data), Err(DecodeError::InvalidDataType { data_type: 12 }));
}

#[test]
fn truncated_edit_is_unexpected_eof() {
    let encoded = encode_edit(&make_test_edit()).unwrap();
    let result = decode_edit(&encoded[..encoded.len() - 1]);
    assert!(matches!(result, Err(DecodeError::UnexpectedEof { .. })));
    assert_eq!(decode_frame(b"GRC2"), Err(DecodeError::UnexpectedEof { context: "version" }));
}

#[test]
fn unknown_op_type_is_malformed() {
    let mut data = handcrafted_header();
    data.extend_from_slice(&[0, 0, 0, 0]);
    data.push(1);
    data.push(8);
    assert_eq!(decode_edit(&data), Err(DecodeError::MalformedEncoding { context: "unknown op type" }));
}

#[test]
fn valid_edits_make_the_round_trip() {
    for edit in [make_test_edit(), make_rich_edit()] {
        assert!(is_valid_edit(&edit));
        assert_eq!(decode_edit(&encode_edit(&edit).unwrap()), Ok(edit.clone()));
        assert_eq!(decode_edit(&encode_edit_compressed(&edit, 3).unwrap()), Ok(edit));
    }
    let empty = Edit { id: [0u8; 16], name: String::new(), authors: vec![], created_at: 0, ops: vec![] };
    assert!(is_valid_edit(&empty));
}

#[test]
fn inconsistent_types_make_an_edit_invalid() {
    let p = [5u8; 16];
    let text = PropertyValue { property: p, value: Value::Text { value: "x".to_string(), language: None } };
    let int = PropertyValue { property: p, value: Value::Int64(300) };
    let two_types = Edit {
        id: [0u8; 16],
        name: String::new(),
        authors: vec![],
        created_at: 0,
        ops: vec![Op::CreateEntity(CreateEntity { id: [1u8; 16], values: vec![text.clone(), int] })],
    };
    assert!(!is_valid_edit(&two_types));
    let encoded = encode_edit(&two_types).unwrap();
    assert_ne!(decode_edit(&encoded), Ok(two_types));

    let cleared_first = Edit {
        id: [0u8; 16],
        name: String::new(),
        authors: vec![],
        created_at: 0,
        ops: vec![
            Op::UpdateEntity(UpdateEntity {
                id: [1u8; 16],
                set_properties: vec![],
                add_values: vec![],
                remove_values: vec![],
                unset_properties: vec![p],
            }),
            Op::CreateEntity(CreateEntity { id: [1u8; 16], values: vec![text.clone()] }),
        ],
    };
    assert!(!is_valid_edit(&cleared_first));
    assert_ne!(decode_edit(&encode_edit(&cleared_first).unwrap()), Ok(cleared_first));

    let declared = Edit {
        id: [0u8; 16],
        name: String::new(),
        authors: vec![],
        created_at: 0,
        ops: vec![
            Op::CreateProperty(CreateProperty { id: p, data_type: DataType::Int64 }),
            Op::CreateEntity(CreateEntity { id: [1u8; 16], values: vec![text] }),
        ],
    };
    assert!(!is_valid_edit(&declared));
    let (dicts, types) = collect_edit_ids(&declared);
    assert_eq!(dicts.build().properties, vec![(p, DataType::Int64)]);
    assert_eq!(types.get(&p), Some(DataType::Int64));
}

#[test]
fn edits_beyond_the_limits_are_invalid() {
    let mut edit = make_test_edit();
    edit.ops.push(Op::CreateEntity(CreateEntity {
        id: [4u8; 16],
        values: vec![PropertyValue {
            property: [30u8; 16],
            value: Value::Decimal { exponent: 0, mantissa: DecimalMantissa::Big(vec![0x00, 0x01]) },
        }],
    }));
    assert!(!is_valid_edit(&edit));
    let encoded = encode_edit(&edit).unwrap();
    assert_eq!(decode_edit(&encoded), Err(DecodeError::DecimalMantissaNotMinimal));

    let mut edit = make_test_edit();
    edit.authors = vec![[1u8; 16]; 1001];
    assert!(!is_valid_edit(&edit));
    assert_eq!(
        decode_edit(&encode_edit(&edit).unwrap()),
        Err(DecodeError::LengthExceedsLimit { field: "authors", len: 1001, max: 1000 })
    );

    let mut edit = make_test_edit();
    edit.name = "n".repeat(16 * 1024 * 1024 + 1);
    assert!(!is_valid_edit(&edit));
    assert_eq!(
        decode_edit(&encode_edit(&edit).unwrap()),
        Err(DecodeError::LengthExceedsLimit { field: "name", len: 16777217, max: 16777216 })
    );

    let mut edit = make_test_edit();
    edit.ops.push(Op::CreateEntity(CreateEntity {
        id: [4u8; 16],
        values: vec![PropertyValue { property: [30u8; 16], value: Value::Float64(f64::NAN.to_bits()) }],
    }));
    assert!(!is_valid_edit(&edit));
}
