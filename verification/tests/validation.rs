use grc_20::error::ValidationError;
use grc_20::model::{CreateEntity, CreateProperty, DataType, Edit, Op, PropertyValue, UpdateEntity, Value};
use grc_20::validate::{validate_edit, validate_position, validate_value, SchemaContext};

#[test]
fn test_validate_type_mismatch() {
    let mut schema = SchemaContext::new();
    schema.add_property([1u8; 16], DataType::Int64);

    let edit = Edit {
        id: [0u8; 16],
        name: String::new(),
        authors: vec![],
        created_at: 0,
        ops: vec![Op::CreateEntity(CreateEntity {
            id: [2u8; 16],
            values: vec![PropertyValue {
                property: [1u8; 16],
                value: Value::Text { value: "not an int".to_string(), language: None },
            }],
        })],
    };

    let result = validate_edit(&edit, &schema);
    assert!(matches!(result, Err(ValidationError::TypeMismatch { .. })));
}

#[test]
fn test_validate_type_match() {
    let mut schema = SchemaContext::new();
    schema.add_property([1u8; 16], DataType::Int64);

    let edit = Edit {
        id: [0u8; 16],
        name: String::new(),
        authors: vec![],
        created_at: 0,
        ops: vec![Op::CreateEntity(CreateEntity {
            id: [2u8; 16],
            values: vec![PropertyValue { property: [1u8; 16], value: Value::Int64(42) }],
        })],
    };

    let result = validate_edit(&edit, &schema);
    assert!(result.is_ok());
}

#[test]
fn test_validate_datatype_inconsistent() {
    let mut schema = SchemaContext::new();
    schema.add_property([1u8; 16], DataType::Int64);

    let edit = Edit {
        id: [0u8; 16],
        name: String::new(),
        authors: vec![],
        created_at: 0,
        ops: vec![Op::CreateProperty(CreateProperty { id: [1u8; 16], data_type: DataType::Text })],
    };

    let result = validate_edit(&edit, &schema);
    assert!(matches!(result, Err(ValidationError::DataTypeInconsistent { .. })));
}

#[test]
fn test_validate_unknown_property() {
    let schema = SchemaContext::new();

    let edit = Edit {
        id: [0u8; 16],
        name: String::new(),
        authors: vec![],
        created_at: 0,
        ops: vec![Op::CreateEntity(CreateEntity {
            id: [2u8; 16],
            values: vec![PropertyValue {
                property: [99u8; 16],
                value: Value::Text { value: "test".to_string(), language: None },
            }],
        })],
    };

    let result = validate_edit(&edit, &schema);
    assert!(result.is_ok());
}

#[test]
fn test_validate_inline_create_property() {
    let schema = SchemaContext::new();

    let edit = Edit {
        id: [0u8; 16],
        name: String::new(),
        authors: vec![],
        created_at: 0,
        ops: vec![
            Op::CreateProperty(CreateProperty { id: [1u8; 16], data_type: DataType::Text }),
            Op::CreateEntity(CreateEntity {
                id: [2u8; 16],
                values: vec![PropertyValue {
                    property: [1u8; 16],
                    value: Value::Text { value: "test".to_string(), language: None },
                }],
            }),
        ],
    };

    let result = validate_edit(&edit, &schema);
    assert!(result.is_ok());
}

fn edit_of(ops: Vec<Op>) -> Edit {
    Edit { id: [0u8; 16], name: String::new(), authors: vec![], created_at: 0, ops }
}

fn text_on(property: [u8; 16]) -> Op {
    Op::CreateEntity(CreateEntity {
        id: [2u8; 16],
        values: vec![PropertyValue { property, value: Value::Text { value: "x".to_string(), language: None } }],
    })
}

#[test]
fn validation_errors_carry_their_context() {
    let p1 = [1u8; 16];
    let mut schema = SchemaContext::new();
    schema.add_property(p1, DataType::Int64);
    assert_eq!(
        validate_edit(&edit_of(vec![text_on(p1)]), &schema),
        Err(ValidationError::TypeMismatch { property: p1, expected: DataType::Int64 })
    );
    let declare = Op::CreateProperty(CreateProperty { id: p1, data_type: DataType::Text });
    assert_eq!(
        validate_edit(&edit_of(vec![declare.clone(), text_on(p1)]), &schema),
        Err(ValidationError::DataTypeInconsistent {
            property: p1,
            schema: DataType::Int64,
            declared: DataType::Text
        })
    );
    let empty = SchemaContext::new();
    assert_eq!(validate_edit(&edit_of(vec![declare, text_on(p1)]), &empty), Ok(()));
}

#[test]
fn declaration_applies_to_later_values_only() {
    let p1 = [1u8; 16];
    let empty = SchemaContext::new();
    let declare_int = Op::CreateProperty(CreateProperty { id: p1, data_type: DataType::Int64 });
    assert_eq!(validate_edit(&edit_of(vec![text_on(p1), declare_int.clone()]), &empty), Ok(()));
    assert_eq!(
        validate_edit(&edit_of(vec![declare_int, text_on(p1)]), &empty),
        Err(ValidationError::TypeMismatch { property: p1, expected: DataType::Int64 })
    );
}

#[test]
fn update_entity_values_are_validated_in_order() {
    let mut schema = SchemaContext::default();
    schema.add_property([1u8; 16], DataType::Bool);
    schema.add_property([2u8; 16], DataType::Int64);
    let op = Op::UpdateEntity(UpdateEntity {
        id: [9u8; 16],
        set_properties: vec![PropertyValue { property: [1u8; 16], value: Value::Bool(true) }],
        add_values: vec![PropertyValue { property: [2u8; 16], value: Value::Bool(true) }],
        remove_values: vec![PropertyValue { property: [1u8; 16], value: Value::Int64(1) }],
        unset_properties: vec![[2u8; 16]],
    });
    assert_eq!(
        validate_edit(&edit_of(vec![op]), &schema),
        Err(ValidationError::TypeMismatch { property: [2u8; 16], expected: DataType::Int64 })
    );
}

#[test]
fn schema_context_remembers_types() {
    let mut schema = SchemaContext::new();
    assert_eq!(schema.get_property_type(&[1u8; 16]), None);
    schema.add_property([1u8; 16], DataType::Date);
    assert_eq!(schema.get_property_type(&[1u8; 16]), Some(DataType::Date));
    schema.add_property([1u8; 16], DataType::Ref);
    assert_eq!(schema.get_property_type(&[1u8; 16]), Some(DataType::Ref));
    let copy = schema.clone();
    schema.add_property([2u8; 16], DataType::Bool);
    assert_eq!(copy.get_property_type(&[1u8; 16]), Some(DataType::Ref));
    assert_eq!(copy.get_property_type(&[2u8; 16]), None);
}

#[test]
fn value_and_position_validation() {
    assert_eq!(validate_value(&Value::Float64(f64::NAN.to_bits())), Some("NaN is not allowed in Float64"));
    assert_eq!(validate_value(&Value::Int64(1)), None);
    assert_eq!(validate_position("abcXYZ019"), Ok(()));
    assert_eq!(validate_position(&"z".repeat(64)), Ok(()));
    assert_eq!(validate_position(&"z".repeat(65)), Err("position exceeds 64 characters"));
    assert_eq!(validate_position("a.b"), Err("position contains a character outside 0-9, A-Z, a-z"));
}
