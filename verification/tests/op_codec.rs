use grc_20::codec::op::{check_op, decode_op, encode_op, intern_op_ids};
use grc_20::codec::primitives::{Reader, Writer};
use grc_20::error::{DecodeError, EncodeError};
use grc_20::model::op::validate_position;
use grc_20::model::{
    CreateEntity, CreateProperty, CreateRelation, DataType, DeleteEntity, DeleteRelation, DictionaryBuilder, Op,
    PropertyValue, TypeTable, UpdateEntity, UpdateRelation, Value, WireDictionaries,
};

fn round_trip(op: &Op) -> (Vec<u8>, Result<Op, DecodeError>) {
    let mut builder = DictionaryBuilder::new();
    let mut writer = Writer::new();
    encode_op(&mut writer, op, &mut builder, &TypeTable::new()).unwrap();
    let dicts = builder.build();
    let bytes = writer.into_bytes();
    let mut reader = Reader::new(&bytes);
    let decoded = decode_op(&mut reader, &dicts);
    (bytes, decoded)
}

#[test]
fn create_property_has_exact_bytes() {
    let op = Op::CreateProperty(CreateProperty { id: [4u8; 16], data_type: DataType::Point });
    let (bytes, decoded) = round_trip(&op);
    let mut expected = vec![1u8];
    expected.extend_from_slice(&[4u8; 16]);
    expected.push(9);
    assert_eq!(bytes, expected);
    assert_eq!(decoded, Ok(op));
}

#[test]
fn update_entity_has_exact_bytes() {
    let op = Op::UpdateEntity(UpdateEntity {
        id: [3u8; 16],
        set_properties: vec![PropertyValue { property: [11u8; 16], value: Value::Bool(false) }],
        add_values: vec![],
        remove_values: vec![PropertyValue { property: [12u8; 16], value: Value::Ref([3u8; 16]) }],
        unset_properties: vec![[11u8; 16], [13u8; 16]],
    });
    let (bytes, decoded) = round_trip(&op);
    assert_eq!(bytes, vec![3, 0, 1, 0, 0, 0, 1, 1, 0, 2, 0, 2]);
    assert_eq!(decoded, Ok(op));
}

#[test]
fn relations_have_exact_bytes() {
    let explicit = Op::CreateRelation(CreateRelation {
        id: Some([7u8; 16]),
        from: [1u8; 16],
        to: [2u8; 16],
        relation_type: [3u8; 16],
        position: Some("a1".to_string()),
        verified: Some(false),
    });
    let (bytes, decoded) = round_trip(&explicit);
    let mut expected = vec![5u8, 1];
    expected.extend_from_slice(&[7u8; 16]);
    expected.extend_from_slice(&[0, 0, 1, 1, 2, b'a', b'1', 1]);
    assert_eq!(bytes, expected);
    assert_eq!(decoded, Ok(explicit));

    let unique = Op::CreateRelation(CreateRelation {
        id: None,
        from: [1u8; 16],
        to: [1u8; 16],
        relation_type: [3u8; 16],
        position: None,
        verified: Some(true),
    });
    let (bytes, decoded) = round_trip(&unique);
    assert_eq!(bytes, vec![5, 0, 0, 0, 0, 0, 2]);
    assert_eq!(decoded, Ok(unique));

    let update = Op::UpdateRelation(UpdateRelation { id: [1u8; 16], position: None, verified: None });
    let (bytes, decoded) = round_trip(&update);
    assert_eq!(bytes, vec![6, 0, 0, 0]);
    assert_eq!(decoded, Ok(update));
}

#[test]
fn deletes_have_exact_bytes() {
    let op = Op::DeleteEntity(DeleteEntity { id: [1u8; 16] });
    assert_eq!(round_trip(&op), (vec![4, 0], Ok(op)));
    let op = Op::DeleteRelation(DeleteRelation { id: [1u8; 16] });
    assert_eq!(round_trip(&op), (vec![7, 0], Ok(op)));
}

#[test]
fn unique_relation_derives_its_identifier() {
    let relation = CreateRelation {
        id: None,
        from: [1u8; 16],
        to: [2u8; 16],
        relation_type: [3u8; 16],
        position: None,
        verified: None,
    };
    assert_eq!(grc_20::model::format_id(&relation.relation_id()), "1fa24c84c10f8ab591a82f72600b82eb");
    let explicit = CreateRelation { id: Some([9u8; 16]), ..relation };
    assert_eq!(explicit.relation_id(), [9u8; 16]);
}

#[test]
fn property_type_comes_from_the_table() {
    let mut types = TypeTable::new();
    types.insert([1u8; 16], DataType::Int64);
    let op = Op::CreateEntity(CreateEntity {
        id: [2u8; 16],
        values: vec![
            PropertyValue { property: [1u8; 16], value: Value::Bool(true) },
            PropertyValue { property: [5u8; 16], value: Value::Bool(true) },
        ],
    });
    let mut builder = DictionaryBuilder::new();
    intern_op_ids(&op, &mut builder, &types);
    let mut writer = Writer::new();
    encode_op(&mut writer, &op, &mut builder, &types).unwrap();
    let dicts = builder.build();
    assert_eq!(dicts.properties, vec![([1u8; 16], DataType::Int64), ([5u8; 16], DataType::Bool)]);
    assert_eq!(types.get(&[1u8; 16]), Some(DataType::Int64));
    assert_eq!(types.get(&[5u8; 16]), None);
    assert_eq!(writer.len(), 1 + 16 + 1 + 2 + 2);
}

#[test]
fn failed_op_check_writes_nothing() {
    let op = Op::CreateEntity(CreateEntity {
        id: [2u8; 16],
        values: vec![
            PropertyValue { property: [1u8; 16], value: Value::Bool(true) },
            PropertyValue { property: [5u8; 16], value: Value::Date("x".to_string()) },
        ],
    });
    let mut builder = DictionaryBuilder::new();
    let mut writer = Writer::new();
    assert_eq!(
        encode_op(&mut writer, &op, &mut builder, &TypeTable::new()),
        Err(EncodeError::InvalidDate { reason: "DATE year must be at least 4 digits" })
    );
    assert!(writer.as_bytes().is_empty());
    assert!(builder.build().properties.is_empty());
    assert_eq!(check_op(&op), Err(EncodeError::InvalidDate { reason: "DATE year must be at least 4 digits" }));
}

#[test]
fn decoded_op_indices_are_checked() {
    let dicts = WireDictionaries::default();
    let mut reader = Reader::new(&[4, 0]);
    assert_eq!(
        decode_op(&mut reader, &dicts),
        Err(DecodeError::IndexOutOfBounds { dict: "objects", index: 0, size: 0 })
    );
    let mut reader = Reader::new(&[5, 0, 2]);
    assert_eq!(
        decode_op(&mut reader, &dicts),
        Err(DecodeError::IndexOutOfBounds { dict: "relation_types", index: 2, size: 0 })
    );
    let mut reader = Reader::new(&[5, 2]);
    assert_eq!(
        decode_op(&mut reader, &dicts),
        Err(DecodeError::MalformedEncoding { context: "invalid relation id mode" })
    );
    let mut reader = Reader::new(&[0]);
    assert_eq!(decode_op(&mut reader, &dicts), Err(DecodeError::MalformedEncoding { context: "unknown op type" }));
    let mut reader = Reader::new(&[]);
    assert_eq!(decode_op(&mut reader, &dicts), Err(DecodeError::UnexpectedEof { context: "op_type" }));
}

#[test]
fn decoded_op_limits_are_enforced() {
    let dicts = WireDictionaries::default();
    let mut bytes = vec![2u8];
    bytes.extend_from_slice(&[1u8; 16]);
    // 10_001 values
    bytes.extend_from_slice(&[145, 78]);
    let mut reader = Reader::new(&bytes);
    assert_eq!(
        decode_op(&mut reader, &dicts),
        Err(DecodeError::LengthExceedsLimit { field: "values", len: 10001, max: 10000 })
    );
}

#[test]
fn decoded_position_and_verified_are_checked() {
    let dicts = WireDictionaries {
        properties: vec![],
        relation_types: vec![],
        languages: vec![],
        objects: vec![[1u8; 16]],
    };
    let mut reader = Reader::new(&[6, 0, 1, 2, b'a', b'-']);
    assert_eq!(decode_op(&mut reader, &dicts), Err(DecodeError::InvalidPositionChar { char: '-' }));
    let mut reader = Reader::new(&[6, 0, 2]);
    assert_eq!(
        decode_op(&mut reader, &dicts),
        Err(DecodeError::MalformedEncoding { context: "invalid position flag" })
    );
    let mut reader = Reader::new(&[6, 0, 0, 3]);
    assert_eq!(
        decode_op(&mut reader, &dicts),
        Err(DecodeError::MalformedEncoding { context: "invalid verified flag" })
    );
    let mut reader = Reader::new(&[6, 0, 0, 2]);
    assert_eq!(
        decode_op(&mut reader, &dicts),
        Ok(Op::UpdateRelation(UpdateRelation { id: [1u8; 16], position: None, verified: Some(true) }))
    );
}

#[test]
fn model_positions_are_validated() {
    assert_eq!(validate_position("0aZ"), Ok(()));
    assert_eq!(validate_position(&"0".repeat(65)), Err("position exceeds 64 characters"));
    assert_eq!(validate_position("a/b"), Err("position contains a character outside 0-9, A-Z, a-z"));
}
