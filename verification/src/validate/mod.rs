//! Semantic validation of edits.
//!
//! Decoding checks the structure of an edit. Semantic validation checks an
//! edit against a schema: the data types that properties are known to have.

use vstd::prelude::*;
use crate::error::ValidationError;
use crate::model::edit::Edit;
use crate::model::edit::TypeTable;
use crate::model::edit::type_of;
use crate::model::id::Id;
use crate::model::op::Op;
use crate::model::op::OpView;
use crate::model::op::ops_view;
use crate::model::op::position_validation;
use crate::model::op::position_valid;
use crate::model::value::DataType;
use crate::model::value::PropertyValue;
use crate::model::value::PropertyValueView;
use crate::model::value::Value;
use crate::model::value::property_values_view;

verus! {

/// Schema context for semantic validation: the known data types of
/// properties. Its view is the map from property identifiers to data types.
pub struct SchemaContext {
    properties: TypeTable,
}

impl View for SchemaContext {
    type V = Map<Seq<u8>, DataType>;

    closed spec fn view(&self) -> Map<Seq<u8>, DataType> {
        self.properties@
    }
}

impl SchemaContext {
    /// Creates a new empty schema context.
    pub fn new() -> (s: Self)
        ensures
            s@ == Map::<Seq<u8>, DataType>::empty(),
    {
        SchemaContext { properties: TypeTable::new() }
    }

    /// Registers a property with its data type, in place of any it had.
    pub fn add_property(&mut self, id: Id, data_type: DataType)
        ensures
            final(self)@ == old(self)@.insert(id@, data_type),
    {
        self.properties.insert(id, data_type);
    }

    /// Gets the data type for a property, if known.
    pub fn get_property_type(&self, id: &Id) -> (res: Option<DataType>)
        ensures
            res == type_of(self@, id@),
    {
        self.properties.get(id)
    }

    /// A copy of the schema context.
    pub fn duplicate(&self) -> (s: Self)
        ensures
            s@ == self@,
    {
        SchemaContext { properties: self.properties.duplicate() }
    }
}

impl Default for SchemaContext {
    fn default() -> (s: Self)
        ensures
            s@ == Map::<Seq<u8>, DataType>::empty(),
    {
        SchemaContext::new()
    }
}

impl Clone for SchemaContext {
    fn clone(&self) -> (s: Self)
        ensures
            s@ == self@,
    {
        self.duplicate()
    }
}

/// The view of a validation error.
pub enum ValidationErrorView {
    TypeMismatch { property: Seq<u8>, expected: DataType },
    DataTypeInconsistent { property: Seq<u8>, schema: DataType, declared: DataType },
}

impl View for ValidationError {
    type V = ValidationErrorView;

    open spec fn view(&self) -> ValidationErrorView {
        match self {
            ValidationError::TypeMismatch { property, expected } => ValidationErrorView::TypeMismatch {
                property: property@,
                expected: *expected,
            },
            ValidationError::DataTypeInconsistent { property, schema, declared } => ValidationErrorView::DataTypeInconsistent {
                property: property@,
                schema: *schema,
                declared: *declared,
            },
        }
    }
}

/// The view of the result of a validation.
pub open spec fn validation_view(res: Result<(), ValidationError>) -> Result<(), ValidationErrorView> {
    match res {
        Ok(_) => Ok(()),
        Err(e) => Err(e@),
    }
}

/// The first value from index `from` on whose type differs from the type
/// that the schema gives its property. A property that the schema does not
/// know is accepted.
pub open spec fn validate_pvs_from(pvs: Seq<PropertyValueView>, from: int, schema: Map<Seq<u8>, DataType>) -> Result<
    (),
    ValidationErrorView,
>
    decreases pvs.len() - from,
{
    if from < 0 || from >= pvs.len() {
        Ok(())
    } else {
        let pv = pvs[from];
        if schema.contains_key(pv.property) && schema[pv.property] != pv.value.data_type() {
            Err(ValidationErrorView::TypeMismatch { property: pv.property, expected: schema[pv.property] })
        } else {
            validate_pvs_from(pvs, from + 1, schema)
        }
    }
}

/// What an operation adds to the local schema: `CreateProperty` declares the
/// type of its property.
pub open spec fn schema_after_op(local: Map<Seq<u8>, DataType>, op: OpView) -> Map<Seq<u8>, DataType> {
    match op {
        OpView::CreateProperty { id, data_type } => local.insert(id, data_type),
        _ => local,
    }
}

/// The validation of one operation against the caller's schema and the local
/// schema, which holds what the edit has declared so far as well.
pub open spec fn validate_op(op: OpView, schema: Map<Seq<u8>, DataType>, local: Map<Seq<u8>, DataType>) -> Result<
    (),
    ValidationErrorView,
> {
    match op {
        OpView::CreateProperty { id, data_type } => if schema.contains_key(id) && schema[id] != data_type {
            Err(ValidationErrorView::DataTypeInconsistent { property: id, schema: schema[id], declared: data_type })
        } else {
            Ok(())
        },
        OpView::CreateEntity { id, values } => validate_pvs_from(values, 0, local),
        OpView::UpdateEntity { id, set_properties, add_values, remove_values, unset_properties } => {
            match validate_pvs_from(set_properties, 0, local) {
                Err(e) => Err(e),
                Ok(_) => match validate_pvs_from(add_values, 0, local) {
                    Err(e) => Err(e),
                    Ok(_) => validate_pvs_from(remove_values, 0, local),
                },
            }
        },
        _ => Ok(()),
    }
}

/// The validation of the operations from index `from` on.
pub open spec fn validate_ops_from(
    ops: Seq<OpView>,
    from: int,
    schema: Map<Seq<u8>, DataType>,
    local: Map<Seq<u8>, DataType>,
) -> Result<(), ValidationErrorView>
    decreases ops.len() - from,
{
    if from < 0 || from >= ops.len() {
        Ok(())
    } else {
        match validate_op(ops[from], schema, local) {
            Err(e) => Err(e),
            Ok(_) => validate_ops_from(ops, from + 1, schema, schema_after_op(local, ops[from])),
        }
    }
}

/// The validation of an edit against a schema: the first violation among
/// its operations, in their order.
///
/// A property declaration must agree with the caller's schema where the
/// schema knows the property. A value must have the type that the schema or
/// an earlier declaration in the edit gives its property.
pub open spec fn spec_validate_edit(ops: Seq<OpView>, schema: Map<Seq<u8>, DataType>) -> Result<
    (),
    ValidationErrorView,
> {
    validate_ops_from(ops, 0, schema, schema)
}

/// Validates that property values match their declared types.
#[verifier::rlimit(50)]
fn validate_property_values(values: &Vec<PropertyValue>, schema: &SchemaContext) -> (res: Result<
    (),
    ValidationError,
>)
    ensures
        validation_view(res) == validate_pvs_from(property_values_view(values@), 0, schema@),
{
    let ghost pvs = property_values_view(values@);
    let mut i: usize = 0;
    while i < values.len()
        invariant
            i <= values.len(),
            pvs == property_values_view(values@),
            validate_pvs_from(pvs, 0, schema@) == validate_pvs_from(pvs, i as int, schema@),
        decreases values.len() - i,
    {
        let pv = &values[i];
        match schema.get_property_type(&pv.property) {
            Some(expected) => {
                let actual = pv.value.data_type();
                if expected != actual {
                    return Err(ValidationError::TypeMismatch { property: pv.property, expected });
                }
            },
            None => {},
        }
        i = i + 1;
    }
    Ok(())
}

/// Validates one operation.
#[verifier::rlimit(50)]
fn validate_one_op(op: &Op, schema: &SchemaContext, local_schema: &SchemaContext) -> (res: Result<
    (),
    ValidationError,
>)
    ensures
        validation_view(res) == validate_op(op@, schema@, local_schema@),
{
    match op {
        Op::CreateProperty(cp) => {
            match schema.get_property_type(&cp.id) {
                Some(existing) => {
                    if existing != cp.data_type {
                        return Err(
                            ValidationError::DataTypeInconsistent {
                                property: cp.id,
                                schema: existing,
                                declared: cp.data_type,
                            },
                        );
                    }
                },
                None => {},
            }
            Ok(())
        },
        Op::CreateEntity(ce) => validate_property_values(&ce.values, local_schema),
        Op::UpdateEntity(ue) => {
            validate_property_values(&ue.set_properties, local_schema)?;
            validate_property_values(&ue.add_values, local_schema)?;
            validate_property_values(&ue.remove_values, local_schema)
        },
        _ => Ok(()),
    }
}

/// Validates an edit against a schema context.
///
/// Checks that the data type declarations of the edit agree with the schema
/// and that the types of values match the types of their properties, as the
/// schema or the edit itself declares them. Properties that neither knows
/// are accepted.
#[verifier::rlimit(50)]
pub fn validate_edit(edit: &Edit, schema: &SchemaContext) -> (res: Result<(), ValidationError>)
    ensures
        validation_view(res) == spec_validate_edit(edit@.ops, schema@),
{
    let ghost ops = ops_view(edit.ops@);
    let mut local_schema = schema.duplicate();
    let mut i: usize = 0;
    while i < edit.ops.len()
        invariant
            i <= edit.ops.len(),
            ops == ops_view(edit.ops@),
            validate_ops_from(ops, 0, schema@, schema@) == validate_ops_from(
                ops,
                i as int,
                schema@,
                local_schema@,
            ),
        decreases edit.ops.len() - i,
    {
        let op = &edit.ops[i];
        validate_one_op(op, schema, &local_schema)?;
        match op {
            Op::CreateProperty(cp) => {
                local_schema.add_property(cp.id, cp.data_type);
            },
            _ => {},
        }
        i = i + 1;
    }
    Ok(())
}

/// Validates a single value, whatever its property: no NaN, coordinates in
/// range, decimals normalized, embedding data as long as its dimensions ask.
pub fn validate_value(value: &Value) -> (res: Option<&'static str>)
    ensures
        res == value@.validation(),
{
    value.validate()
}

/// Validates a position string: at most 64 bytes, only `0-9`, `A-Z`, `a-z`.
pub fn validate_position(pos: &str) -> (res: Result<(), &'static str>)
    ensures
        res == position_validation(pos@),
        res is Ok <==> position_valid(pos@),
{
    crate::model::op::validate_position(pos)
}

} // verus!
