//! Data model: identifiers, values, operations, edits and their dictionaries.

pub mod id;
pub mod ieee;
pub mod value;
pub mod op;
pub mod edit;

pub use edit::{DictionaryBuilder, Edit, TypeTable, WireDictionaries};
pub use id::{derived_uuid, format_id, parse_id, text_value_id, unique_relation_id, value_id, Id, NIL_ID};
pub use op::{
    validate_position, CreateEntity, CreateProperty, CreateRelation, DeleteEntity, DeleteRelation, Op,
    UpdateEntity, UpdateRelation,
};
pub use value::{DataType, DecimalMantissa, EmbeddingSubType, Property, PropertyValue, Value};
