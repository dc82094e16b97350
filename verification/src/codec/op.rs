//! Wire format of operations.
//!
//! An operation is a tag byte and a body. The body names properties,
//! relation types, languages and objects by their index in the dictionaries
//! of the edit; the identifier of a created entity or property, and the
//! explicit identifier of a created relation, stand in the body as raw bytes.
//!
//! | Tag | Operation | Body |
//! |---|---|---|
//! | 1 | CreateProperty | id, data type code |
//! | 2 | CreateEntity | id, values |
//! | 3 | UpdateEntity | object index, set, add, remove, unset property indices |
//! | 4 | DeleteEntity | object index |
//! | 5 | CreateRelation | id mode (0 unique, 1 explicit and id), relation type index, from index, to index, position, verified |
//! | 6 | UpdateRelation | object index, position, verified |
//! | 7 | DeleteRelation | object index |
//!
//! Every list is a varint count and its items. An optional position is a flag
//! byte (0 or 1) and the string; an optional verification mark is one byte:
//! 0 for none, 1 for false, 2 for true.

use vstd::prelude::*;
use crate::codec::primitives::Reader;
use crate::codec::primitives::Writer;
use crate::codec::primitives::Parsed;
use crate::codec::primitives::parsed;
use crate::codec::primitives::parsed_view;
use crate::codec::primitives::concat;
use crate::codec::primitives::ids_view;
use crate::codec::primitives::lemma_concat_push;
use crate::codec::primitives::spec_read_byte;
use crate::codec::primitives::spec_read_id;
use crate::codec::primitives::spec_read_varint;
use crate::codec::primitives::string_bytes;
use crate::codec::primitives::varint_bytes;
use crate::codec::value::check_value;
use crate::codec::value::decode_position;
use crate::codec::value::decode_property_value;
use crate::codec::value::intern_property_value;
use crate::codec::value::intern_value_ids;
use crate::codec::value::property_value_bytes;
use crate::codec::value::put_value;
use crate::codec::value::spec_check_position;
use crate::codec::value::spec_check_value;
use crate::codec::value::spec_read_position;
use crate::codec::value::spec_read_property_value;
use crate::codec::value::validate_position;
use crate::codec::value::value_resolves;
use crate::error::DecodeError;
use crate::error::EncodeError;
use crate::limits::MAX_VALUES_PER_ENTITY;
use crate::model::edit::DictView;
use crate::model::edit::DictionaryBuilder;
use crate::model::edit::TypeTable;
use crate::model::edit::WireDictionaries;
use crate::model::edit::type_of;
use crate::model::id::Id;
use crate::model::op::CreateEntity;
use crate::model::op::CreateProperty;
use crate::model::op::CreateRelation;
use crate::model::op::DeleteEntity;
use crate::model::op::DeleteRelation;
use crate::model::op::Op;
use crate::model::op::OpView;
use crate::model::op::UpdateEntity;
use crate::model::op::UpdateRelation;
use crate::model::op::opt_string_view;
use crate::model::value::DataType;
use crate::model::value::PropertyValue;
use crate::model::value::PropertyValueView;
use crate::model::value::property_values_view;

verus! {

/// Tag of `CreateProperty`.
pub const OP_CREATE_PROPERTY: u8 = 1;

/// Tag of `CreateEntity`.
pub const OP_CREATE_ENTITY: u8 = 2;

/// Tag of `UpdateEntity`.
pub const OP_UPDATE_ENTITY: u8 = 3;

/// Tag of `DeleteEntity`.
pub const OP_DELETE_ENTITY: u8 = 4;

/// Tag of `CreateRelation`.
pub const OP_CREATE_RELATION: u8 = 5;

/// Tag of `UpdateRelation`.
pub const OP_UPDATE_RELATION: u8 = 6;

/// Tag of `DeleteRelation`.
pub const OP_DELETE_RELATION: u8 = 7;

// ---------------------------------------------------------------------------
// Dictionaries of an operation
// ---------------------------------------------------------------------------

/// The data type under which the encoder adds the property of a value: the
/// type that `types` gives the property, else the type of the value.
pub open spec fn type_for(types: Map<Seq<u8>, DataType>, pv: PropertyValueView) -> DataType {
    match type_of(types, pv.property) {
        Some(t) => t,
        None => pv.value.data_type(),
    }
}

/// The dictionaries after the identifiers of a property value were added.
pub open spec fn intern_pv(d: DictView, pv: PropertyValueView, types: Map<Seq<u8>, DataType>) -> DictView {
    intern_property_value(d, pv, type_for(types, pv))
}

/// The dictionaries after the identifiers of a list of property values were
/// added, in the order of the list.
pub open spec fn intern_pvs(d: DictView, pvs: Seq<PropertyValueView>, types: Map<Seq<u8>, DataType>) -> DictView
    decreases pvs.len(),
{
    if pvs.len() == 0 {
        d
    } else {
        intern_pv(intern_pvs(d, pvs.drop_last(), types), pvs.last(), types)
    }
}

/// The dictionaries after a list of properties to clear was added. Their
/// data type is not known from the operation: a property not seen before is
/// added as `Bool`.
pub open spec fn intern_unset(d: DictView, ids: Seq<Seq<u8>>) -> DictView
    decreases ids.len(),
{
    if ids.len() == 0 {
        d
    } else {
        intern_unset(d, ids.drop_last()).add_property(ids.last(), DataType::Bool)
    }
}

/// The dictionaries after the identifiers that an operation refers to by
/// index were added, in the order in which the operation holds them.
pub open spec fn intern_op(d: DictView, op: OpView, types: Map<Seq<u8>, DataType>) -> DictView {
    match op {
        OpView::CreateProperty { id, data_type } => d,
        OpView::CreateEntity { id, values } => intern_pvs(d, values, types),
        OpView::UpdateEntity { id, set_properties, add_values, remove_values, unset_properties } => intern_unset(
            intern_pvs(
                intern_pvs(intern_pvs(d.add_object(id), set_properties, types), add_values, types),
                remove_values,
                types,
            ),
            unset_properties,
        ),
        OpView::DeleteEntity { id } => d.add_object(id),
        OpView::CreateRelation { id, from, to, relation_type, position, verified } => d.add_relation_type(
            relation_type,
        ).add_object(from).add_object(to),
        OpView::UpdateRelation { id, position, verified } => d.add_object(id),
        OpView::DeleteRelation { id } => d.add_object(id),
    }
}

/// The dictionaries hold the property of the value and what the value refers to.
pub open spec fn pv_resolves(pv: PropertyValueView, d: DictView) -> bool {
    d.property_ids.contains(pv.property) && value_resolves(pv.value, d)
}

/// The dictionaries hold what the values of a list refer to.
pub open spec fn pvs_resolve(pvs: Seq<PropertyValueView>, d: DictView) -> bool {
    forall|i: int| 0 <= i < pvs.len() ==> pv_resolves(#[trigger] pvs[i], d)
}

/// A dictionary holds every identifier of a list.
pub open spec fn ids_resolve(ids: Seq<Seq<u8>>, list: Seq<Seq<u8>>) -> bool {
    forall|i: int| 0 <= i < ids.len() ==> list.contains(#[trigger] ids[i])
}

/// The dictionaries hold every identifier that the operation refers to by index.
pub open spec fn op_resolves(op: OpView, d: DictView) -> bool {
    match op {
        OpView::CreateProperty { id, data_type } => true,
        OpView::CreateEntity { id, values } => pvs_resolve(values, d),
        OpView::UpdateEntity { id, set_properties, add_values, remove_values, unset_properties } => {
            &&& d.objects.contains(id)
            &&& pvs_resolve(set_properties, d)
            &&& pvs_resolve(add_values, d)
            &&& pvs_resolve(remove_values, d)
            &&& ids_resolve(unset_properties, d.property_ids)
        },
        OpView::DeleteEntity { id } => d.objects.contains(id),
        OpView::CreateRelation { id, from, to, relation_type, position, verified } => {
            &&& d.relation_types.contains(relation_type)
            &&& d.objects.contains(from)
            &&& d.objects.contains(to)
        },
        OpView::UpdateRelation { id, position, verified } => d.objects.contains(id),
        OpView::DeleteRelation { id } => d.objects.contains(id),
    }
}

// ---------------------------------------------------------------------------
// What the encoder accepts
// ---------------------------------------------------------------------------

/// The first error among the values of a list from index `from` on.
pub open spec fn check_pvs_from(pvs: Seq<PropertyValueView>, from: int) -> Result<(), EncodeError>
    decreases pvs.len() - from,
{
    if from < 0 || from >= pvs.len() {
        Ok(())
    } else {
        match spec_check_value(pvs[from].value) {
            Err(e) => Err(e),
            Ok(_) => check_pvs_from(pvs, from + 1),
        }
    }
}

/// What the encoder checks of an optional position.
pub open spec fn spec_check_opt_position(position: Option<Seq<char>>) -> Result<(), EncodeError> {
    match position {
        Some(s) => spec_check_position(s),
        None => Ok(()),
    }
}

/// What the encoder checks of an operation before it writes anything: the
/// first error among its values and its position, in their order.
pub open spec fn spec_check_op(op: OpView) -> Result<(), EncodeError> {
    match op {
        OpView::CreateEntity { id, values } => check_pvs_from(values, 0),
        OpView::UpdateEntity { id, set_properties, add_values, remove_values, unset_properties } => {
            match check_pvs_from(set_properties, 0) {
                Err(e) => Err(e),
                Ok(_) => match check_pvs_from(add_values, 0) {
                    Err(e) => Err(e),
                    Ok(_) => check_pvs_from(remove_values, 0),
                },
            }
        },
        OpView::CreateRelation { id, from, to, relation_type, position, verified } => spec_check_opt_position(
            position,
        ),
        OpView::UpdateRelation { id, position, verified } => spec_check_opt_position(position),
        _ => Ok(()),
    }
}

/// Checks a list of property values as the encoder does.
pub fn check_property_values(values: &Vec<PropertyValue>) -> (res: Result<(), EncodeError>)
    ensures
        res == check_pvs_from(property_values_view(values@), 0),
{
    let ghost pvs = property_values_view(values@);
    let mut i: usize = 0;
    while i < values.len()
        invariant
            i <= values.len(),
            pvs == property_values_view(values@),
            check_pvs_from(pvs, 0) == check_pvs_from(pvs, i as int),
        decreases values.len() - i,
    {
        check_value(&values[i].value)?;
        i = i + 1;
    }
    Ok(())
}

/// Checks an optional position as the encoder does.
pub fn check_opt_position(position: &Option<String>) -> (res: Result<(), EncodeError>)
    ensures
        res == spec_check_opt_position(opt_string_view(*position)),
{
    match position {
        Some(s) => validate_position(s.as_str()),
        None => Ok(()),
    }
}

/// Checks an operation as the encoder does, without writing anything.
#[verifier::rlimit(50)]
pub fn check_op(op: &Op) -> (res: Result<(), EncodeError>)
    ensures
        res == spec_check_op(op@),
{
    match op {
        Op::CreateEntity(ce) => check_property_values(&ce.values),
        Op::UpdateEntity(ue) => {
            check_property_values(&ue.set_properties)?;
            check_property_values(&ue.add_values)?;
            check_property_values(&ue.remove_values)
        },
        Op::CreateRelation(cr) => check_opt_position(&cr.position),
        Op::UpdateRelation(ur) => check_opt_position(&ur.position),
        _ => Ok(()),
    }
}

// ---------------------------------------------------------------------------
// Encoding
// ---------------------------------------------------------------------------

/// The encodings of the values of a list.
pub open spec fn pv_parts(pvs: Seq<PropertyValueView>, d: DictView) -> Seq<Seq<u8>> {
    Seq::new(pvs.len(), |i: int| property_value_bytes(pvs[i], d))
}

/// The encoding of a list of property values: the count, then the values.
pub open spec fn pv_vec_bytes(pvs: Seq<PropertyValueView>, d: DictView) -> Seq<u8> {
    varint_bytes(pvs.len()) + concat(pv_parts(pvs, d))
}

/// The encodings of the indices of a list of properties.
pub open spec fn property_index_parts(ids: Seq<Seq<u8>>, d: DictView) -> Seq<Seq<u8>> {
    Seq::new(ids.len(), |i: int| varint_bytes(d.property_ids.index_of(ids[i]) as nat))
}

/// The encoding of a list of properties: the count, then their indices.
pub open spec fn property_indices_bytes(ids: Seq<Seq<u8>>, d: DictView) -> Seq<u8> {
    varint_bytes(ids.len()) + concat(property_index_parts(ids, d))
}

/// The encoding of an optional position.
pub open spec fn opt_position_bytes(position: Option<Seq<char>>) -> Seq<u8> {
    match position {
        Some(s) => seq![1u8] + string_bytes(s),
        None => seq![0u8],
    }
}

/// The code of an optional verification mark.
pub open spec fn verified_code(verified: Option<bool>) -> u8 {
    match verified {
        None => 0,
        Some(false) => 1,
        Some(true) => 2,
    }
}

/// The encoding of the identifier mode of a created relation.
pub open spec fn relation_id_bytes(id: Option<Seq<u8>>) -> Seq<u8> {
    match id {
        Some(id) => seq![1u8] + id,
        None => seq![0u8],
    }
}

/// The encoding of the index of an object.
pub open spec fn object_index_bytes(id: Seq<u8>, d: DictView) -> Seq<u8> {
    varint_bytes(d.objects.index_of(id) as nat)
}

/// The encoding of an operation, with indices taken from the dictionaries `d`.
pub open spec fn op_bytes(op: OpView, d: DictView) -> Seq<u8> {
    match op {
        OpView::CreateProperty { id, data_type } => seq![OP_CREATE_PROPERTY] + id + seq![data_type.spec_code()],
        OpView::CreateEntity { id, values } => seq![OP_CREATE_ENTITY] + id + pv_vec_bytes(values, d),
        OpView::UpdateEntity { id, set_properties, add_values, remove_values, unset_properties } => seq![
            OP_UPDATE_ENTITY,
        ] + object_index_bytes(id, d) + pv_vec_bytes(set_properties, d) + pv_vec_bytes(add_values, d)
            + pv_vec_bytes(remove_values, d) + property_indices_bytes(unset_properties, d),
        OpView::DeleteEntity { id } => seq![OP_DELETE_ENTITY] + object_index_bytes(id, d),
        OpView::CreateRelation { id, from, to, relation_type, position, verified } => seq![OP_CREATE_RELATION]
            + relation_id_bytes(id) + varint_bytes(d.relation_types.index_of(relation_type) as nat)
            + object_index_bytes(from, d) + object_index_bytes(to, d) + opt_position_bytes(position) + seq![
            verified_code(verified),
        ],
        OpView::UpdateRelation { id, position, verified } => seq![OP_UPDATE_RELATION] + object_index_bytes(id, d)
            + opt_position_bytes(position) + seq![verified_code(verified)],
        OpView::DeleteRelation { id } => seq![OP_DELETE_RELATION] + object_index_bytes(id, d),
    }
}

/// Writes a property value whose identifiers the dictionaries hold.
fn put_property_value(writer: &mut Writer, pv: &PropertyValue, dicts: &DictionaryBuilder)
    requires
        pv_resolves(pv@, dicts@),
    ensures
        final(writer)@ == old(writer)@ + property_value_bytes(pv@, dicts@),
{
    let index: usize = match dicts.find_property(&pv.property) {
        Some(i) => i,
        None => 0,
    };
    writer.write_varint(index as u64);
    put_value(writer, &pv.value, dicts);
    proof {
        assert(writer@ =~= old(writer)@ + property_value_bytes(pv@, dicts@));
    }
}

/// Writes a list of property values: the count, then the values.
#[verifier::rlimit(50)]
fn put_property_values(writer: &mut Writer, values: &Vec<PropertyValue>, dicts: &DictionaryBuilder)
    requires
        pvs_resolve(property_values_view(values@), dicts@),
    ensures
        final(writer)@ == old(writer)@ + pv_vec_bytes(property_values_view(values@), dicts@),
{
    let ghost pvs = property_values_view(values@);
    let ghost d = dicts@;
    writer.write_varint(values.len() as u64);
    let ghost start = writer@;
    let mut i: usize = 0;
    proof {
        assert(pv_parts(pvs, d).take(0) =~= Seq::<Seq<u8>>::empty());
        assert(writer@ =~= start + concat(pv_parts(pvs, d).take(0)));
    }
    while i < values.len()
        invariant
            i <= values.len(),
            pvs == property_values_view(values@),
            d == dicts@,
            pvs_resolve(pvs, d),
            writer@ == start + concat(pv_parts(pvs, d).take(i as int)),
        decreases values.len() - i,
    {
        assert(pv_resolves(pvs[i as int], d));
        put_property_value(writer, &values[i], dicts);
        proof {
            let parts = pv_parts(pvs, d);
            assert(parts.take(i + 1) =~= parts.take(i as int).push(parts[i as int]));
            lemma_concat_push(parts.take(i as int), parts[i as int]);
            assert(writer@ =~= start + concat(parts.take(i + 1)));
        }
        i = i + 1;
    }
    proof {
        assert(pv_parts(pvs, d).take(values.len() as int) =~= pv_parts(pvs, d));
        assert(writer@ =~= old(writer)@ + pv_vec_bytes(pvs, d));
    }
}

/// Writes a list of properties as their indices behind the count.
#[verifier::rlimit(50)]
fn put_property_indices(writer: &mut Writer, ids: &Vec<Id>, dicts: &DictionaryBuilder)
    requires
        ids_resolve(ids_view(ids@), dicts@.property_ids),
    ensures
        final(writer)@ == old(writer)@ + property_indices_bytes(ids_view(ids@), dicts@),
{
    let ghost all = ids_view(ids@);
    let ghost d = dicts@;
    writer.write_varint(ids.len() as u64);
    let ghost start = writer@;
    let mut i: usize = 0;
    proof {
        assert(property_index_parts(all, d).take(0) =~= Seq::<Seq<u8>>::empty());
        assert(writer@ =~= start + concat(property_index_parts(all, d).take(0)));
    }
    while i < ids.len()
        invariant
            i <= ids.len(),
            all == ids_view(ids@),
            d == dicts@,
            ids_resolve(all, d.property_ids),
            writer@ == start + concat(property_index_parts(all, d).take(i as int)),
        decreases ids.len() - i,
    {
        assert(d.property_ids.contains(all[i as int]));
        let index: usize = match dicts.find_property(&ids[i]) {
            Some(k) => k,
            None => 0,
        };
        writer.write_varint(index as u64);
        proof {
            let parts = property_index_parts(all, d);
            assert(parts.take(i + 1) =~= parts.take(i as int).push(parts[i as int]));
            lemma_concat_push(parts.take(i as int), parts[i as int]);
            assert(writer@ =~= start + concat(parts.take(i + 1)));
        }
        i = i + 1;
    }
    proof {
        assert(property_index_parts(all, d).take(ids.len() as int) =~= property_index_parts(all, d));
        assert(writer@ =~= old(writer)@ + property_indices_bytes(all, d));
    }
}

/// Writes the index of an object that the dictionaries hold.
fn put_object_index(writer: &mut Writer, id: &Id, dicts: &DictionaryBuilder)
    requires
        dicts@.objects.contains(id@),
    ensures
        final(writer)@ == old(writer)@ + object_index_bytes(id@, dicts@),
{
    let index: usize = match dicts.find_object(id) {
        Some(i) => i,
        None => 0,
    };
    writer.write_varint(index as u64);
}

/// Writes an optional position.
fn put_opt_position(writer: &mut Writer, position: &Option<String>)
    ensures
        final(writer)@ == old(writer)@ + opt_position_bytes(opt_string_view(*position)),
{
    match position {
        Some(s) => {
            writer.write_byte(1);
            writer.write_string(s.as_str());
            proof {
                assert(writer@ =~= old(writer)@ + (seq![1u8] + string_bytes(s@)));
            }
        },
        None => {
            writer.write_byte(0);
            proof {
                assert(writer@ =~= old(writer)@ + seq![0u8]);
            }
        },
    }
}

/// Writes an optional verification mark.
fn put_verified(writer: &mut Writer, verified: Option<bool>)
    ensures
        final(writer)@ == old(writer)@ + seq![verified_code(verified)],
{
    let code: u8 = match verified {
        None => 0,
        Some(false) => 1,
        Some(true) => 2,
    };
    writer.write_byte(code);
    proof {
        assert(writer@ =~= old(writer)@ + seq![verified_code(verified)]);
    }
}

/// Writes an operation whose identifiers the dictionaries hold.
#[verifier::rlimit(50)]
pub(crate) fn put_op(writer: &mut Writer, op: &Op, dicts: &DictionaryBuilder)
    requires
        op_resolves(op@, dicts@),
    ensures
        final(writer)@ == old(writer)@ + op_bytes(op@, dicts@),
{
    let ghost w0 = writer@;
    let ghost d = dicts@;
    match op {
        Op::CreateProperty(cp) => {
            writer.write_byte(OP_CREATE_PROPERTY);
            writer.write_id(&cp.id);
            writer.write_byte(cp.data_type.code());
            proof {
                assert(writer@ =~= w0 + op_bytes(op@, d));
            }
        },
        Op::CreateEntity(ce) => {
            writer.write_byte(OP_CREATE_ENTITY);
            writer.write_id(&ce.id);
            put_property_values(writer, &ce.values, dicts);
            proof {
                assert(writer@ =~= w0 + op_bytes(op@, d));
            }
        },
        Op::UpdateEntity(ue) => {
            writer.write_byte(OP_UPDATE_ENTITY);
            put_object_index(writer, &ue.id, dicts);
            put_property_values(writer, &ue.set_properties, dicts);
            put_property_values(writer, &ue.add_values, dicts);
            put_property_values(writer, &ue.remove_values, dicts);
            put_property_indices(writer, &ue.unset_properties, dicts);
            proof {
                assert(writer@ =~= w0 + op_bytes(op@, d));
            }
        },
        Op::DeleteEntity(de) => {
            writer.write_byte(OP_DELETE_ENTITY);
            put_object_index(writer, &de.id, dicts);
            proof {
                assert(writer@ =~= w0 + op_bytes(op@, d));
            }
        },
        Op::CreateRelation(cr) => {
            writer.write_byte(OP_CREATE_RELATION);
            match &cr.id {
                Some(id) => {
                    writer.write_byte(1);
                    writer.write_id(id);
                    proof {
                        assert(writer@ =~= w0 + seq![OP_CREATE_RELATION] + (seq![1u8] + id@));
                    }
                },
                None => {
                    writer.write_byte(0);
                    proof {
                        assert(writer@ =~= w0 + seq![OP_CREATE_RELATION] + seq![0u8]);
                    }
                },
            }
            let index: usize = match dicts.find_relation_type(&cr.relation_type) {
                Some(i) => i,
                None => 0,
            };
            writer.write_varint(index as u64);
            put_object_index(writer, &cr.from, dicts);
            put_object_index(writer, &cr.to, dicts);
            put_opt_position(writer, &cr.position);
            put_verified(writer, cr.verified);
            proof {
                assert(writer@ =~= w0 + op_bytes(op@, d));
            }
        },
        Op::UpdateRelation(ur) => {
            writer.write_byte(OP_UPDATE_RELATION);
            put_object_index(writer, &ur.id, dicts);
            put_opt_position(writer, &ur.position);
            put_verified(writer, ur.verified);
            proof {
                assert(writer@ =~= w0 + op_bytes(op@, d));
            }
        },
        Op::DeleteRelation(dr) => {
            writer.write_byte(OP_DELETE_RELATION);
            put_object_index(writer, &dr.id, dicts);
            proof {
                assert(writer@ =~= w0 + op_bytes(op@, d));
            }
        },
    }
}


// ---------------------------------------------------------------------------
// Grammar
// ---------------------------------------------------------------------------

/// `count` property values in a row, behind those in `acc`.
pub open spec fn spec_read_pvs_from(s: Seq<u8>, count: nat, acc: Seq<PropertyValueView>, d: DictView) -> Parsed<
    Seq<PropertyValueView>,
>
    decreases count,
{
    if count == 0 {
        Ok((acc, s))
    } else {
        match spec_read_property_value(s, d) {
            Err(e) => Err(e),
            Ok((pv, rest)) => spec_read_pvs_from(rest, (count - 1) as nat, acc.push(pv), d),
        }
    }
}

/// A list of property values: a count of at most 10 000, then the values.
pub open spec fn spec_read_pv_vec(s: Seq<u8>, d: DictView, context: &'static str) -> Parsed<
    Seq<PropertyValueView>,
> {
    match spec_read_varint(s, context) {
        Err(e) => Err(e),
        Ok((count, rest)) => if count > MAX_VALUES_PER_ENTITY {
            Err(
                DecodeError::LengthExceedsLimit {
                    field: context,
                    len: count,
                    max: MAX_VALUES_PER_ENTITY as u64,
                },
            )
        } else {
            spec_read_pvs_from(rest, count as nat, Seq::empty(), d)
        },
    }
}

/// An index into the properties, as the identifier it selects.
pub open spec fn spec_read_property_ref(s: Seq<u8>, d: DictView, context: &'static str) -> Parsed<Seq<u8>> {
    match spec_read_varint(s, context) {
        Err(e) => Err(e),
        Ok((index, rest)) => if index >= d.property_ids.len() {
            Err(
                DecodeError::IndexOutOfBounds {
                    dict: "properties",
                    index,
                    size: d.property_ids.len() as u64,
                },
            )
        } else {
            Ok((d.property_ids[index as int], rest))
        },
    }
}

/// `count` property indices in a row, behind the properties in `acc`.
pub open spec fn spec_read_property_refs_from(s: Seq<u8>, count: nat, acc: Seq<Seq<u8>>, d: DictView) -> Parsed<
    Seq<Seq<u8>>,
>
    decreases count,
{
    if count == 0 {
        Ok((acc, s))
    } else {
        match spec_read_property_ref(s, d, "unset_properties") {
            Err(e) => Err(e),
            Ok((id, rest)) => spec_read_property_refs_from(rest, (count - 1) as nat, acc.push(id), d),
        }
    }
}

/// A list of properties: a count of at most 10 000, then their indices.
pub open spec fn spec_read_property_refs(s: Seq<u8>, d: DictView) -> Parsed<Seq<Seq<u8>>> {
    match spec_read_varint(s, "unset_properties") {
        Err(e) => Err(e),
        Ok((count, rest)) => if count > MAX_VALUES_PER_ENTITY {
            Err(
                DecodeError::LengthExceedsLimit {
                    field: "unset_properties",
                    len: count,
                    max: MAX_VALUES_PER_ENTITY as u64,
                },
            )
        } else {
            spec_read_property_refs_from(rest, count as nat, Seq::empty(), d)
        },
    }
}

/// An index into the objects, as the identifier it selects.
pub open spec fn spec_read_object_ref(s: Seq<u8>, d: DictView, context: &'static str) -> Parsed<Seq<u8>> {
    match spec_read_varint(s, context) {
        Err(e) => Err(e),
        Ok((index, rest)) => if index >= d.objects.len() {
            Err(DecodeError::IndexOutOfBounds { dict: "objects", index, size: d.objects.len() as u64 })
        } else {
            Ok((d.objects[index as int], rest))
        },
    }
}

/// An index into the relation types, as the identifier it selects.
pub open spec fn spec_read_relation_type_ref(s: Seq<u8>, d: DictView) -> Parsed<Seq<u8>> {
    match spec_read_varint(s, "relation_type") {
        Err(e) => Err(e),
        Ok((index, rest)) => if index >= d.relation_types.len() {
            Err(
                DecodeError::IndexOutOfBounds {
                    dict: "relation_types",
                    index,
                    size: d.relation_types.len() as u64,
                },
            )
        } else {
            Ok((d.relation_types[index as int], rest))
        },
    }
}

/// An optional position: a flag byte, then the position where the flag is 1.
pub open spec fn spec_read_opt_position(s: Seq<u8>) -> Parsed<Option<Seq<char>>> {
    match spec_read_byte(s, "position.flag") {
        Err(e) => Err(e),
        Ok((flag, rest)) => if flag == 0 {
            Ok((None, rest))
        } else if flag == 1 {
            match spec_read_position(rest) {
                Err(e) => Err(e),
                Ok((pos, rest2)) => Ok((Some(pos), rest2)),
            }
        } else {
            Err(DecodeError::MalformedEncoding { context: "invalid position flag" })
        },
    }
}

/// An optional verification mark: one byte, 0, 1 or 2.
pub open spec fn spec_read_verified(s: Seq<u8>) -> Parsed<Option<bool>> {
    match spec_read_byte(s, "verified") {
        Err(e) => Err(e),
        Ok((code, rest)) => if code == 0 {
            Ok((None, rest))
        } else if code == 1 {
            Ok((Some(false), rest))
        } else if code == 2 {
            Ok((Some(true), rest))
        } else {
            Err(DecodeError::MalformedEncoding { context: "invalid verified flag" })
        },
    }
}

/// The identifier mode of a created relation: 0 for unique mode, 1 and an
/// identifier for an explicit one.
pub open spec fn spec_read_relation_id(s: Seq<u8>) -> Parsed<Option<Seq<u8>>> {
    match spec_read_byte(s, "relation.id_mode") {
        Err(e) => Err(e),
        Ok((mode, rest)) => if mode == 0 {
            Ok((None, rest))
        } else if mode == 1 {
            match spec_read_id(rest, "relation.id") {
                Err(e) => Err(e),
                Ok((id, rest2)) => Ok((Some(id), rest2)),
            }
        } else {
            Err(DecodeError::MalformedEncoding { context: "invalid relation id mode" })
        },
    }
}

/// The body of `CreateProperty`.
pub open spec fn spec_read_create_property(s: Seq<u8>) -> Parsed<OpView> {
    match spec_read_id(s, "property_id") {
        Err(e) => Err(e),
        Ok((id, rest)) => match spec_read_byte(rest, "data_type") {
            Err(e) => Err(e),
            Ok((code, rest2)) => match DataType::spec_from_u8(code) {
                None => Err(DecodeError::InvalidDataType { data_type: code }),
                Some(data_type) => Ok((OpView::CreateProperty { id, data_type }, rest2)),
            },
        },
    }
}

/// The body of `CreateEntity`.
pub open spec fn spec_read_create_entity(s: Seq<u8>, d: DictView) -> Parsed<OpView> {
    match spec_read_id(s, "entity_id") {
        Err(e) => Err(e),
        Ok((id, rest)) => match spec_read_pv_vec(rest, d, "values") {
            Err(e) => Err(e),
            Ok((values, rest2)) => Ok((OpView::CreateEntity { id, values }, rest2)),
        },
    }
}

/// The body of `UpdateEntity`.
pub open spec fn spec_read_update_entity(s: Seq<u8>, d: DictView) -> Parsed<OpView> {
    match spec_read_object_ref(s, d, "entity") {
        Err(e) => Err(e),
        Ok((id, rest)) => match spec_read_pv_vec(rest, d, "set_properties") {
            Err(e) => Err(e),
            Ok((set_properties, rest2)) => match spec_read_pv_vec(rest2, d, "add_values") {
                Err(e) => Err(e),
                Ok((add_values, rest3)) => match spec_read_pv_vec(rest3, d, "remove_values") {
                    Err(e) => Err(e),
                    Ok((remove_values, rest4)) => match spec_read_property_refs(rest4, d) {
                        Err(e) => Err(e),
                        Ok((unset_properties, rest5)) => Ok(
                            (
                                OpView::UpdateEntity {
                                    id,
                                    set_properties,
                                    add_values,
                                    remove_values,
                                    unset_properties,
                                },
                                rest5,
                            ),
                        ),
                    },
                },
            },
        },
    }
}

/// The body of `CreateRelation`.
pub open spec fn spec_read_create_relation(s: Seq<u8>, d: DictView) -> Parsed<OpView> {
    match spec_read_relation_id(s) {
        Err(e) => Err(e),
        Ok((id, rest)) => match spec_read_relation_type_ref(rest, d) {
            Err(e) => Err(e),
            Ok((relation_type, rest2)) => match spec_read_object_ref(rest2, d, "from") {
                Err(e) => Err(e),
                Ok((from, rest3)) => match spec_read_object_ref(rest3, d, "to") {
                    Err(e) => Err(e),
                    Ok((to, rest4)) => match spec_read_opt_position(rest4) {
                        Err(e) => Err(e),
                        Ok((position, rest5)) => match spec_read_verified(rest5) {
                            Err(e) => Err(e),
                            Ok((verified, rest6)) => Ok(
                                (
                                    OpView::CreateRelation { id, from, to, relation_type, position, verified },
                                    rest6,
                                ),
                            ),
                        },
                    },
                },
            },
        },
    }
}

/// The body of `UpdateRelation`.
pub open spec fn spec_read_update_relation(s: Seq<u8>, d: DictView) -> Parsed<OpView> {
    match spec_read_object_ref(s, d, "relation") {
        Err(e) => Err(e),
        Ok((id, rest)) => match spec_read_opt_position(rest) {
            Err(e) => Err(e),
            Ok((position, rest2)) => match spec_read_verified(rest2) {
                Err(e) => Err(e),
                Ok((verified, rest3)) => Ok((OpView::UpdateRelation { id, position, verified }, rest3)),
            },
        },
    }
}

/// An operation: a tag byte, then the body that the tag names.
pub open spec fn spec_read_op(s: Seq<u8>, d: DictView) -> Parsed<OpView> {
    match spec_read_byte(s, "op_type") {
        Err(e) => Err(e),
        Ok((tag, rest)) => if tag == OP_CREATE_PROPERTY {
            spec_read_create_property(rest)
        } else if tag == OP_CREATE_ENTITY {
            spec_read_create_entity(rest, d)
        } else if tag == OP_UPDATE_ENTITY {
            spec_read_update_entity(rest, d)
        } else if tag == OP_DELETE_ENTITY {
            match spec_read_object_ref(rest, d, "entity") {
                Err(e) => Err(e),
                Ok((id, rest2)) => Ok((OpView::DeleteEntity { id }, rest2)),
            }
        } else if tag == OP_CREATE_RELATION {
            spec_read_create_relation(rest, d)
        } else if tag == OP_UPDATE_RELATION {
            spec_read_update_relation(rest, d)
        } else if tag == OP_DELETE_RELATION {
            match spec_read_object_ref(rest, d, "relation") {
                Err(e) => Err(e),
                Ok((id, rest2)) => Ok((OpView::DeleteRelation { id }, rest2)),
            }
        } else {
            Err(DecodeError::MalformedEncoding { context: "unknown op type" })
        },
    }
}

// ---------------------------------------------------------------------------
// Decoding
// ---------------------------------------------------------------------------

#[verifier::rlimit(50)]
fn decode_property_values(reader: &mut Reader, dicts: &WireDictionaries, context: &'static str) -> (res: Result<
    Vec<PropertyValue>,
    DecodeError,
>)
    ensures
        match spec_read_pv_vec(old(reader)@, dicts@, context) {
            Ok((pvs, tail)) => res is Ok && property_values_view(res->Ok_0@) == pvs && final(reader)@ == tail,
            Err(e) => res == Err::<Vec<PropertyValue>, DecodeError>(e),
        },
{
    let count: u64 = reader.read_varint(context)?;
    if count > MAX_VALUES_PER_ENTITY as u64 {
        return Err(
            DecodeError::LengthExceedsLimit { field: context, len: count, max: MAX_VALUES_PER_ENTITY as u64 },
        );
    }
    let n: usize = count as usize;
    let ghost start = reader@;
    let ghost d = dicts@;
    let mut values: Vec<PropertyValue> = Vec::new();
    let mut i: usize = 0;
    proof {
        assert(property_values_view(values@) =~= Seq::<PropertyValueView>::empty());
    }
    while i < n
        invariant
            i <= n,
            n == count,
            count <= MAX_VALUES_PER_ENTITY,
            d == dicts@,
            spec_read_varint(old(reader)@, context) == Ok::<(u64, Seq<u8>), DecodeError>((count, start)),
            spec_read_pvs_from(start, n as nat, Seq::empty(), d) == spec_read_pvs_from(
                reader@,
                (n - i) as nat,
                property_values_view(values@),
                d,
            ),
        decreases n - i,
    {
        let ghost before = property_values_view(values@);
        let pv = decode_property_value(reader, dicts)?;
        let ghost pvv = pv@;
        values.push(pv);
        proof {
            assert(property_values_view(values@) =~= before.push(pvv));
        }
        i = i + 1;
    }
    Ok(values)
}

#[verifier::rlimit(50)]
fn decode_property_refs(reader: &mut Reader, dicts: &WireDictionaries) -> (res: Result<Vec<Id>, DecodeError>)
    ensures
        match spec_read_property_refs(old(reader)@, dicts@) {
            Ok((ids, tail)) => res is Ok && ids_view(res->Ok_0@) == ids && final(reader)@ == tail,
            Err(e) => res == Err::<Vec<Id>, DecodeError>(e),
        },
{
    let count: u64 = reader.read_varint("unset_properties")?;
    if count > MAX_VALUES_PER_ENTITY as u64 {
        return Err(
            DecodeError::LengthExceedsLimit {
                field: "unset_properties",
                len: count,
                max: MAX_VALUES_PER_ENTITY as u64,
            },
        );
    }
    let n: usize = count as usize;
    let ghost start = reader@;
    let ghost d = dicts@;
    let mut ids: Vec<Id> = Vec::new();
    let mut i: usize = 0;
    proof {
        assert(ids_view(ids@) =~= Seq::<Seq<u8>>::empty());
    }
    while i < n
        invariant
            i <= n,
            n == count,
            count <= MAX_VALUES_PER_ENTITY,
            d == dicts@,
            spec_read_varint(old(reader)@, "unset_properties") == Ok::<(u64, Seq<u8>), DecodeError>(
                (count, start),
            ),
            spec_read_property_refs_from(start, n as nat, Seq::empty(), d) == spec_read_property_refs_from(
                reader@,
                (n - i) as nat,
                ids_view(ids@),
                d,
            ),
        decreases n - i,
    {
        let ghost before = ids_view(ids@);
        let index: u64 = reader.read_varint("unset_properties")?;
        let size: usize = dicts.properties.len();
        if index >= size as u64 {
            return Err(DecodeError::IndexOutOfBounds { dict: "properties", index, size: size as u64 });
        }
        let id: Id = dicts.properties[index as usize].0;
        ids.push(id);
        proof {
            assert(ids_view(ids@) =~= before.push(id@));
        }
        i = i + 1;
    }
    Ok(ids)
}

fn decode_object_ref(reader: &mut Reader, dicts: &WireDictionaries, context: &'static str) -> (res: Result<
    Id,
    DecodeError,
>)
    ensures
        parsed_view(res, final(reader)@, spec_read_object_ref(old(reader)@, dicts@, context)),
{
    let index: u64 = reader.read_varint(context)?;
    let size: usize = dicts.objects.len();
    if index >= size as u64 {
        return Err(DecodeError::IndexOutOfBounds { dict: "objects", index, size: size as u64 });
    }
    Ok(dicts.objects[index as usize])
}

fn decode_relation_type_ref(reader: &mut Reader, dicts: &WireDictionaries) -> (res: Result<Id, DecodeError>)
    ensures
        parsed_view(res, final(reader)@, spec_read_relation_type_ref(old(reader)@, dicts@)),
{
    let index: u64 = reader.read_varint("relation_type")?;
    let size: usize = dicts.relation_types.len();
    if index >= size as u64 {
        return Err(DecodeError::IndexOutOfBounds { dict: "relation_types", index, size: size as u64 });
    }
    Ok(dicts.relation_types[index as usize])
}

fn decode_opt_position(reader: &mut Reader) -> (res: Result<Option<String>, DecodeError>)
    ensures
        match spec_read_opt_position(old(reader)@) {
            Ok((pos, tail)) => res is Ok && opt_string_view(res->Ok_0) == pos && final(reader)@ == tail,
            Err(e) => res == Err::<Option<String>, DecodeError>(e),
        },
{
    let flag: u8 = reader.read_byte("position.flag")?;
    match flag {
        0 => Ok(None),
        1 => {
            let pos = decode_position(reader)?;
            Ok(Some(pos))
        },
        _ => Err(DecodeError::MalformedEncoding { context: "invalid position flag" }),
    }
}

fn decode_verified(reader: &mut Reader) -> (res: Result<Option<bool>, DecodeError>)
    ensures
        parsed(res, final(reader)@, spec_read_verified(old(reader)@)),
{
    let code: u8 = reader.read_byte("verified")?;
    match code {
        0 => Ok(None),
        1 => Ok(Some(false)),
        2 => Ok(Some(true)),
        _ => Err(DecodeError::MalformedEncoding { context: "invalid verified flag" }),
    }
}

fn decode_relation_id(reader: &mut Reader) -> (res: Result<Option<Id>, DecodeError>)
    ensures
        match spec_read_relation_id(old(reader)@) {
            Ok((id, tail)) => res is Ok && crate::model::id::opt_id_view(res->Ok_0) == id && final(reader)@
                == tail,
            Err(e) => res == Err::<Option<Id>, DecodeError>(e),
        },
{
    let mode: u8 = reader.read_byte("relation.id_mode")?;
    match mode {
        0 => Ok(None),
        1 => {
            let id: Id = reader.read_id("relation.id")?;
            Ok(Some(id))
        },
        _ => Err(DecodeError::MalformedEncoding { context: "invalid relation id mode" }),
    }
}

fn decode_create_property(reader: &mut Reader) -> (res: Result<Op, DecodeError>)
    ensures
        parsed_view(res, final(reader)@, spec_read_create_property(old(reader)@)),
{
    let id: Id = reader.read_id("property_id")?;
    let code: u8 = reader.read_byte("data_type")?;
    match DataType::from_u8(code) {
        Some(data_type) => Ok(Op::CreateProperty(CreateProperty { id, data_type })),
        None => Err(DecodeError::InvalidDataType { data_type: code }),
    }
}

fn decode_create_entity(reader: &mut Reader, dicts: &WireDictionaries) -> (res: Result<Op, DecodeError>)
    ensures
        parsed_view(res, final(reader)@, spec_read_create_entity(old(reader)@, dicts@)),
{
    let id: Id = reader.read_id("entity_id")?;
    let values = decode_property_values(reader, dicts, "values")?;
    Ok(Op::CreateEntity(CreateEntity { id, values }))
}

#[verifier::rlimit(50)]
fn decode_update_entity(reader: &mut Reader, dicts: &WireDictionaries) -> (res: Result<Op, DecodeError>)
    ensures
        parsed_view(res, final(reader)@, spec_read_update_entity(old(reader)@, dicts@)),
{
    let id: Id = decode_object_ref(reader, dicts, "entity")?;
    let set_properties = decode_property_values(reader, dicts, "set_properties")?;
    let add_values = decode_property_values(reader, dicts, "add_values")?;
    let remove_values = decode_property_values(reader, dicts, "remove_values")?;
    let unset_properties = decode_property_refs(reader, dicts)?;
    Ok(Op::UpdateEntity(UpdateEntity { id, set_properties, add_values, remove_values, unset_properties }))
}

#[verifier::rlimit(50)]
fn decode_create_relation(reader: &mut Reader, dicts: &WireDictionaries) -> (res: Result<Op, DecodeError>)
    ensures
        parsed_view(res, final(reader)@, spec_read_create_relation(old(reader)@, dicts@)),
{
    let id = decode_relation_id(reader)?;
    let relation_type: Id = decode_relation_type_ref(reader, dicts)?;
    let from: Id = decode_object_ref(reader, dicts, "from")?;
    let to: Id = decode_object_ref(reader, dicts, "to")?;
    let position = decode_opt_position(reader)?;
    let verified = decode_verified(reader)?;
    Ok(Op::CreateRelation(CreateRelation { id, from, to, relation_type, position, verified }))
}

#[verifier::rlimit(50)]
fn decode_update_relation(reader: &mut Reader, dicts: &WireDictionaries) -> (res: Result<Op, DecodeError>)
    ensures
        parsed_view(res, final(reader)@, spec_read_update_relation(old(reader)@, dicts@)),
{
    let id: Id = decode_object_ref(reader, dicts, "relation")?;
    let position = decode_opt_position(reader)?;
    let verified = decode_verified(reader)?;
    Ok(Op::UpdateRelation(UpdateRelation { id, position, verified }))
}

/// Decodes an operation and resolves its indices against the dictionaries.
#[verifier::rlimit(50)]
pub fn decode_op(reader: &mut Reader, dicts: &WireDictionaries) -> (res: Result<Op, DecodeError>)
    ensures
        parsed_view(res, final(reader)@, spec_read_op(old(reader)@, dicts@)),
{
    let tag: u8 = reader.read_byte("op_type")?;
    match tag {
        1 => decode_create_property(reader),
        2 => decode_create_entity(reader, dicts),
        3 => decode_update_entity(reader, dicts),
        4 => {
            let id: Id = decode_object_ref(reader, dicts, "entity")?;
            Ok(Op::DeleteEntity(DeleteEntity { id }))
        },
        5 => decode_create_relation(reader, dicts),
        6 => decode_update_relation(reader, dicts),
        7 => {
            let id: Id = decode_object_ref(reader, dicts, "relation")?;
            Ok(Op::DeleteRelation(DeleteRelation { id }))
        },
        _ => Err(DecodeError::MalformedEncoding { context: "unknown op type" }),
    }
}


// ---------------------------------------------------------------------------
// Laws of the dictionaries
// ---------------------------------------------------------------------------

/// Every identifier that `d` holds, `e` holds in the same dictionary.
pub open spec fn dict_subset(d: DictView, e: DictView) -> bool {
    &&& forall|id: Seq<u8>| #[trigger] d.property_ids.contains(id) ==> e.property_ids.contains(id)
    &&& forall|id: Seq<u8>| #[trigger] d.relation_types.contains(id) ==> e.relation_types.contains(id)
    &&& forall|id: Seq<u8>| #[trigger] d.languages.contains(id) ==> e.languages.contains(id)
    &&& forall|id: Seq<u8>| #[trigger] d.objects.contains(id) ==> e.objects.contains(id)
}

/// A list that `id` was added to holds `id` and all it held before.
pub proof fn lemma_intern_list_grows(list: Seq<Seq<u8>>, id: Seq<u8>)
    ensures
        crate::model::edit::intern_list(list, id).contains(id),
        forall|other: Seq<u8>| #[trigger]
            list.contains(other) ==> crate::model::edit::intern_list(list, id).contains(other),
{
    let next = crate::model::edit::intern_list(list, id);
    if !list.contains(id) {
        assert(next[list.len() as int] == id);
        assert forall|other: Seq<u8>| #[trigger] list.contains(other) implies next.contains(other) by {
            let i = list.index_of(other);
            assert(next[i] == other);
        }
    }
}

/// Dictionaries that a property was added to hold it and all they held before.
pub proof fn lemma_add_property_grows(d: DictView, id: Seq<u8>, data_type: DataType)
    ensures
        dict_subset(d, d.add_property(id, data_type)),
        d.add_property(id, data_type).property_ids.contains(id),
{
    let e = d.add_property(id, data_type);
    if !d.property_ids.contains(id) {
        assert(e.property_ids[d.property_ids.len() as int] == id);
        assert forall|other: Seq<u8>| #[trigger] d.property_ids.contains(other) implies e.property_ids.contains(
            other,
        ) by {
            let i = d.property_ids.index_of(other);
            assert(e.property_ids[i] == other);
        }
    }
}

/// Dictionaries that the identifiers of a value were added to hold them and
/// all they held before.
pub proof fn lemma_intern_value_grows(d: DictView, v: crate::model::value::ValueView)
    ensures
        dict_subset(d, crate::codec::value::intern_value(d, v)),
        value_resolves(v, crate::codec::value::intern_value(d, v)),
{
    match v {
        crate::model::value::ValueView::Text { value, language } => {
            if language is Some {
                lemma_intern_list_grows(d.languages, language->0);
            }
        },
        crate::model::value::ValueView::Ref(id) => {
            lemma_intern_list_grows(d.objects, id);
        },
        _ => {},
    }
}

/// What resolves in dictionaries resolves in dictionaries that hold more.
pub proof fn lemma_pv_resolves_monotone(pv: PropertyValueView, d: DictView, e: DictView)
    requires
        pv_resolves(pv, d),
        dict_subset(d, e),
    ensures
        pv_resolves(pv, e),
{
}

/// What resolves in dictionaries resolves in dictionaries that hold more.
pub proof fn lemma_pvs_resolve_monotone(pvs: Seq<PropertyValueView>, d: DictView, e: DictView)
    requires
        pvs_resolve(pvs, d),
        dict_subset(d, e),
    ensures
        pvs_resolve(pvs, e),
{
    assert forall|i: int| 0 <= i < pvs.len() implies pv_resolves(#[trigger] pvs[i], e) by {
        lemma_pv_resolves_monotone(pvs[i], d, e);
    }
}

/// What resolves in dictionaries resolves in dictionaries that hold more.
#[verifier::rlimit(50)]
pub proof fn lemma_op_resolves_monotone(op: OpView, d: DictView, e: DictView)
    requires
        op_resolves(op, d),
        dict_subset(d, e),
    ensures
        op_resolves(op, e),
{
    match op {
        OpView::CreateEntity { id, values } => {
            lemma_pvs_resolve_monotone(values, d, e);
        },
        OpView::UpdateEntity { id, set_properties, add_values, remove_values, unset_properties } => {
            lemma_pvs_resolve_monotone(set_properties, d, e);
            lemma_pvs_resolve_monotone(add_values, d, e);
            lemma_pvs_resolve_monotone(remove_values, d, e);
        },
        _ => {},
    }
}

/// Holding more is transitive.
pub proof fn lemma_dict_subset_transitive(a: DictView, b: DictView, c: DictView)
    requires
        dict_subset(a, b),
        dict_subset(b, c),
    ensures
        dict_subset(a, c),
{
}

/// Dictionaries that a property value was added to hold its identifiers and
/// all they held before.
pub proof fn lemma_intern_pv_grows(d: DictView, pv: PropertyValueView, types: Map<Seq<u8>, DataType>)
    ensures
        dict_subset(d, intern_pv(d, pv, types)),
        pv_resolves(pv, intern_pv(d, pv, types)),
{
    let mid = d.add_property(pv.property, type_for(types, pv));
    lemma_add_property_grows(d, pv.property, type_for(types, pv));
    lemma_intern_value_grows(mid, pv.value);
    lemma_dict_subset_transitive(d, mid, intern_pv(d, pv, types));
}

/// Dictionaries that a list of property values was added to hold their
/// identifiers and all they held before.
#[verifier::rlimit(50)]
pub proof fn lemma_intern_pvs_grows(d: DictView, pvs: Seq<PropertyValueView>, types: Map<Seq<u8>, DataType>)
    ensures
        dict_subset(d, intern_pvs(d, pvs, types)),
        pvs_resolve(pvs, intern_pvs(d, pvs, types)),
    decreases pvs.len(),
{
    if pvs.len() > 0 {
        let init = pvs.drop_last();
        let mid = intern_pvs(d, init, types);
        let end = intern_pvs(d, pvs, types);
        lemma_intern_pvs_grows(d, init, types);
        lemma_intern_pv_grows(mid, pvs.last(), types);
        lemma_dict_subset_transitive(d, mid, end);
        lemma_pvs_resolve_monotone(init, mid, end);
        assert forall|i: int| 0 <= i < pvs.len() implies pv_resolves(#[trigger] pvs[i], end) by {
            if i < init.len() {
                assert(pvs[i] == init[i]);
            }
        }
    }
}

/// Dictionaries that a list of properties to clear was added to hold them
/// and all they held before.
pub proof fn lemma_intern_unset_grows(d: DictView, ids: Seq<Seq<u8>>)
    ensures
        dict_subset(d, intern_unset(d, ids)),
        ids_resolve(ids, intern_unset(d, ids).property_ids),
    decreases ids.len(),
{
    if ids.len() > 0 {
        let init = ids.drop_last();
        let mid = intern_unset(d, init);
        let end = intern_unset(d, ids);
        lemma_intern_unset_grows(d, init);
        lemma_add_property_grows(mid, ids.last(), DataType::Bool);
        lemma_dict_subset_transitive(d, mid, end);
        assert forall|i: int| 0 <= i < ids.len() implies end.property_ids.contains(#[trigger] ids[i]) by {
            if i < init.len() {
                assert(ids[i] == init[i]);
                assert(mid.property_ids.contains(init[i]));
            }
        }
    }
}

/// Dictionaries that an object was added to hold it and all they held before.
pub proof fn lemma_add_object_grows(d: DictView, id: Seq<u8>)
    ensures
        dict_subset(d, d.add_object(id)),
        d.add_object(id).objects.contains(id),
{
    lemma_intern_list_grows(d.objects, id);
}

/// Dictionaries that the identifiers of an operation were added to hold them
/// and all they held before.
#[verifier::rlimit(50)]
pub proof fn lemma_intern_op_grows(d: DictView, op: OpView, types: Map<Seq<u8>, DataType>)
    ensures
        dict_subset(d, intern_op(d, op, types)),
        op_resolves(op, intern_op(d, op, types)),
{
    let end = intern_op(d, op, types);
    match op {
        OpView::CreateProperty { id, data_type } => {},
        OpView::CreateEntity { id, values } => {
            lemma_intern_pvs_grows(d, values, types);
        },
        OpView::UpdateEntity { id, set_properties, add_values, remove_values, unset_properties } => {
            let d1 = d.add_object(id);
            let d2 = intern_pvs(d1, set_properties, types);
            let d3 = intern_pvs(d2, add_values, types);
            let d4 = intern_pvs(d3, remove_values, types);
            lemma_add_object_grows(d, id);
            lemma_intern_pvs_grows(d1, set_properties, types);
            lemma_intern_pvs_grows(d2, add_values, types);
            lemma_intern_pvs_grows(d3, remove_values, types);
            lemma_intern_unset_grows(d4, unset_properties);
            lemma_dict_subset_transitive(d3, d4, end);
            lemma_dict_subset_transitive(d2, d3, end);
            lemma_dict_subset_transitive(d1, d2, end);
            lemma_dict_subset_transitive(d, d1, end);
            lemma_pvs_resolve_monotone(set_properties, d2, end);
            lemma_pvs_resolve_monotone(add_values, d3, end);
            lemma_pvs_resolve_monotone(remove_values, d4, end);
        },
        OpView::DeleteEntity { id } => {
            lemma_add_object_grows(d, id);
        },
        OpView::CreateRelation { id, from, to, relation_type, position, verified } => {
            let d1 = d.add_relation_type(relation_type);
            let d2 = d1.add_object(from);
            lemma_intern_list_grows(d.relation_types, relation_type);
            lemma_add_object_grows(d1, from);
            lemma_add_object_grows(d2, to);
            lemma_dict_subset_transitive(d1, d2, end);
            lemma_dict_subset_transitive(d, d1, end);
        },
        OpView::UpdateRelation { id, position, verified } => {
            lemma_add_object_grows(d, id);
        },
        OpView::DeleteRelation { id } => {
            lemma_add_object_grows(d, id);
        },
    }
}

// ---------------------------------------------------------------------------
// Adding the identifiers of an operation
// ---------------------------------------------------------------------------

/// Adds the identifiers of a list of property values to the dictionaries. A
/// property not seen before is added under the type that `types` gives it,
/// else under the type of its value.
#[verifier::rlimit(50)]
pub fn intern_property_values(values: &Vec<PropertyValue>, dict_builder: &mut DictionaryBuilder, types: &TypeTable)
    ensures
        final(dict_builder)@ == intern_pvs(old(dict_builder)@, property_values_view(values@), types@),
{
    let ghost pvs = property_values_view(values@);
    let ghost d0 = dict_builder@;
    let mut i: usize = 0;
    proof {
        assert(pvs.take(0) =~= Seq::<PropertyValueView>::empty());
    }
    while i < values.len()
        invariant
            i <= values.len(),
            pvs == property_values_view(values@),
            dict_builder@ == intern_pvs(d0, pvs.take(i as int), types@),
        decreases values.len() - i,
    {
        let pv = &values[i];
        let data_type: DataType = match types.get(&pv.property) {
            Some(t) => t,
            None => pv.value.data_type(),
        };
        let _ = dict_builder.add_property(pv.property, data_type);
        intern_value_ids(&pv.value, dict_builder);
        proof {
            assert(pvs.take(i + 1).drop_last() =~= pvs.take(i as int));
            assert(pvs.take(i + 1).last() == pv@);
        }
        i = i + 1;
    }
    proof {
        assert(pvs.take(values.len() as int) =~= pvs);
    }
}

/// Adds a list of properties to clear to the dictionaries, each as `Bool`
/// unless the dictionaries hold it.
fn intern_unset_properties(ids: &Vec<Id>, dict_builder: &mut DictionaryBuilder)
    ensures
        final(dict_builder)@ == intern_unset(old(dict_builder)@, ids_view(ids@)),
{
    let ghost all = ids_view(ids@);
    let ghost d0 = dict_builder@;
    let mut i: usize = 0;
    proof {
        assert(all.take(0) =~= Seq::<Seq<u8>>::empty());
    }
    while i < ids.len()
        invariant
            i <= ids.len(),
            all == ids_view(ids@),
            dict_builder@ == intern_unset(d0, all.take(i as int)),
        decreases ids.len() - i,
    {
        let _ = dict_builder.add_property(ids[i], DataType::Bool);
        proof {
            assert(all.take(i + 1).drop_last() =~= all.take(i as int));
            assert(all.take(i + 1).last() == ids@[i as int]@);
        }
        i = i + 1;
    }
    proof {
        assert(all.take(ids.len() as int) =~= all);
    }
}

/// Adds the identifiers that an operation refers to by index to the
/// dictionaries, in the order in which the operation holds them.
#[verifier::rlimit(50)]
pub fn intern_op_ids(op: &Op, dict_builder: &mut DictionaryBuilder, types: &TypeTable)
    ensures
        final(dict_builder)@ == intern_op(old(dict_builder)@, op@, types@),
        op_resolves(op@, final(dict_builder)@),
{
    proof {
        lemma_intern_op_grows(dict_builder@, op@, types@);
    }
    match op {
        Op::CreateProperty(_) => {},
        Op::CreateEntity(ce) => {
            intern_property_values(&ce.values, dict_builder, types);
        },
        Op::UpdateEntity(ue) => {
            let _ = dict_builder.add_object(ue.id);
            intern_property_values(&ue.set_properties, dict_builder, types);
            intern_property_values(&ue.add_values, dict_builder, types);
            intern_property_values(&ue.remove_values, dict_builder, types);
            intern_unset_properties(&ue.unset_properties, dict_builder);
        },
        Op::DeleteEntity(de) => {
            let _ = dict_builder.add_object(de.id);
        },
        Op::CreateRelation(cr) => {
            let _ = dict_builder.add_relation_type(cr.relation_type);
            let _ = dict_builder.add_object(cr.from);
            let _ = dict_builder.add_object(cr.to);
        },
        Op::UpdateRelation(ur) => {
            let _ = dict_builder.add_object(ur.id);
        },
        Op::DeleteRelation(dr) => {
            let _ = dict_builder.add_object(dr.id);
        },
    }
}

/// Encodes an operation to the writer.
///
/// The operation is checked first; where the check fails nothing is written
/// and the dictionaries stay as they were. Otherwise the identifiers of the
/// operation are added to the dictionaries, a new property under the type
/// that `property_types` gives it or else under the type of its value, and
/// the operation is written with their indices.
#[verifier::rlimit(50)]
pub fn encode_op(writer: &mut Writer, op: &Op, dict_builder: &mut DictionaryBuilder, property_types: &TypeTable) -> (res:
    Result<(), EncodeError>)
    ensures
        res == spec_check_op(op@),
        res is Ok ==> final(dict_builder)@ == intern_op(old(dict_builder)@, op@, property_types@)
            && final(writer)@ == old(writer)@ + op_bytes(op@, final(dict_builder)@),
        res is Ok ==> op_resolves(op@, final(dict_builder)@),
        res is Err ==> final(dict_builder)@ == old(dict_builder)@ && final(writer)@ == old(writer)@,
{
    check_op(op)?;
    intern_op_ids(op, dict_builder, property_types);
    put_op(writer, op, dict_builder);
    Ok(())
}


// ---------------------------------------------------------------------------
// Laws of the round trip
// ---------------------------------------------------------------------------

/// The property value that decoding yields for an encoded one.
pub open spec fn canonical_pv(pv: PropertyValueView) -> PropertyValueView {
    PropertyValueView { property: pv.property, value: crate::codec::value::canonical_value(pv.value) }
}

/// The property values that decoding yields for encoded ones.
pub open spec fn canonical_pvs(pvs: Seq<PropertyValueView>) -> Seq<PropertyValueView> {
    Seq::new(pvs.len(), |i: int| canonical_pv(pvs[i]))
}

/// The operation that decoding yields for an encoded one: the operation
/// itself, with every binary64 negative zero replaced by positive zero.
pub open spec fn canonical_op(op: OpView) -> OpView {
    match op {
        OpView::CreateEntity { id, values } => OpView::CreateEntity { id, values: canonical_pvs(values) },
        OpView::UpdateEntity { id, set_properties, add_values, remove_values, unset_properties } => OpView::UpdateEntity {
            id,
            set_properties: canonical_pvs(set_properties),
            add_values: canonical_pvs(add_values),
            remove_values: canonical_pvs(remove_values),
            unset_properties,
        },
        _ => op,
    }
}

/// The dictionaries give every property a type, and their sizes are such
/// that every index fits a varint.
pub open spec fn dict_in_range(d: DictView) -> bool {
    &&& d.property_ids.len() == d.property_types.len()
    &&& d.property_ids.len() < u64::MAX
    &&& d.relation_types.len() < u64::MAX
    &&& d.languages.len() < u64::MAX
    &&& d.objects.len() < u64::MAX
}

/// A property value can make the round trip through dictionaries `d`: the
/// encoder accepts the value, its lengths are within the decoder's limits,
/// the dictionaries hold its identifiers, and they hold its property under
/// the data type of the value.
pub open spec fn pv_valid(pv: PropertyValueView, d: DictView) -> bool {
    &&& spec_check_value(pv.value) is Ok
    &&& crate::codec::value::value_in_limits(pv.value)
    &&& pv_resolves(pv, d)
    &&& d.property_types[d.property_ids.index_of(pv.property)] == pv.value.data_type()
}

/// A list of property values can make the round trip: it has at most 10 000
/// values, and each can.
pub open spec fn pvs_valid(pvs: Seq<PropertyValueView>, d: DictView) -> bool {
    &&& pvs.len() <= MAX_VALUES_PER_ENTITY
    &&& forall|i: int| 0 <= i < pvs.len() ==> pv_valid(#[trigger] pvs[i], d)
}

/// An operation can make the round trip through dictionaries `d`: its
/// identifiers have sixteen bytes, the dictionaries hold those it refers to
/// by index, its values can make the round trip and its position is valid.
pub open spec fn op_valid(op: OpView, d: DictView) -> bool {
    match op {
        OpView::CreateProperty { id, data_type } => id.len() == 16,
        OpView::CreateEntity { id, values } => id.len() == 16 && pvs_valid(values, d),
        OpView::UpdateEntity { id, set_properties, add_values, remove_values, unset_properties } => {
            &&& d.objects.contains(id)
            &&& pvs_valid(set_properties, d)
            &&& pvs_valid(add_values, d)
            &&& pvs_valid(remove_values, d)
            &&& unset_properties.len() <= MAX_VALUES_PER_ENTITY
            &&& ids_resolve(unset_properties, d.property_ids)
        },
        OpView::DeleteEntity { id } => d.objects.contains(id),
        OpView::CreateRelation { id, from, to, relation_type, position, verified } => {
            &&& id is Some ==> id->0.len() == 16
            &&& d.relation_types.contains(relation_type)
            &&& d.objects.contains(from)
            &&& d.objects.contains(to)
            &&& spec_check_opt_position(position) is Ok
        },
        OpView::UpdateRelation { id, position, verified } => d.objects.contains(id) && spec_check_opt_position(
            position,
        ) is Ok,
        OpView::DeleteRelation { id } => d.objects.contains(id),
    }
}

/// The identifiers that a value holds have sixteen bytes.
pub open spec fn value_ids_ok(v: crate::model::value::ValueView) -> bool {
    match v {
        crate::model::value::ValueView::Text { value, language } => language is Some ==> language->0.len() == 16,
        crate::model::value::ValueView::Ref(id) => id.len() == 16,
        _ => true,
    }
}

/// A property value is well formed: its identifiers have sixteen bytes and
/// the lengths of its value are within the limits that the decoder enforces.
pub open spec fn pv_well_formed(pv: PropertyValueView) -> bool {
    &&& pv.property.len() == 16
    &&& value_ids_ok(pv.value)
    &&& crate::codec::value::value_in_limits(pv.value)
}

/// A list of property values is well formed: it has at most 10 000 values,
/// and each is well formed.
pub open spec fn pvs_well_formed(pvs: Seq<PropertyValueView>) -> bool {
    &&& pvs.len() <= MAX_VALUES_PER_ENTITY
    &&& forall|i: int| 0 <= i < pvs.len() ==> pv_well_formed(#[trigger] pvs[i])
}

/// An operation is well formed: its identifiers have sixteen bytes, and its
/// lists and values are within the limits that the decoder enforces.
pub open spec fn op_well_formed(op: OpView) -> bool {
    match op {
        OpView::CreateProperty { id, data_type } => id.len() == 16,
        OpView::CreateEntity { id, values } => id.len() == 16 && pvs_well_formed(values),
        OpView::UpdateEntity { id, set_properties, add_values, remove_values, unset_properties } => {
            &&& id.len() == 16
            &&& pvs_well_formed(set_properties)
            &&& pvs_well_formed(add_values)
            &&& pvs_well_formed(remove_values)
            &&& unset_properties.len() <= MAX_VALUES_PER_ENTITY
            &&& crate::codec::primitives::ids_well_formed(unset_properties)
        },
        OpView::DeleteEntity { id } => id.len() == 16,
        OpView::CreateRelation { id, from, to, relation_type, position, verified } => {
            &&& id is Some ==> id->0.len() == 16
            &&& from.len() == 16
            &&& to.len() == 16
            &&& relation_type.len() == 16
        },
        OpView::UpdateRelation { id, position, verified } => id.len() == 16,
        OpView::DeleteRelation { id } => id.len() == 16,
    }
}

/// The dictionaries hold the property of the value under the data type of
/// the value.
pub open spec fn pv_typed(pv: PropertyValueView, d: DictView) -> bool {
    d.property_types[d.property_ids.index_of(pv.property)] == pv.value.data_type()
}

/// The dictionaries hold the property of each value under its data type.
pub open spec fn pvs_typed(pvs: Seq<PropertyValueView>, d: DictView) -> bool {
    forall|i: int| 0 <= i < pvs.len() ==> pv_typed(#[trigger] pvs[i], d)
}

/// The dictionaries hold the property of each value of the operation under
/// the data type of the value.
pub open spec fn op_typed(op: OpView, d: DictView) -> bool {
    match op {
        OpView::CreateEntity { id, values } => pvs_typed(values, d),
        OpView::UpdateEntity { id, set_properties, add_values, remove_values, unset_properties } => {
            &&& pvs_typed(set_properties, d)
            &&& pvs_typed(add_values, d)
            &&& pvs_typed(remove_values, d)
        },
        _ => true,
    }
}

/// Tells whether a list of property values is well formed.
pub fn are_values_well_formed(values: &Vec<PropertyValue>) -> (res: bool)
    ensures
        res == pvs_well_formed(property_values_view(values@)),
{
    let ghost pvs = property_values_view(values@);
    if values.len() > MAX_VALUES_PER_ENTITY {
        return false;
    }
    let mut i: usize = 0;
    while i < values.len()
        invariant
            i <= values.len(),
            pvs == property_values_view(values@),
            forall|j: int| 0 <= j < i ==> pv_well_formed(#[trigger] pvs[j]),
        decreases values.len() - i,
    {
        if !crate::codec::value::is_value_in_limits(&values[i].value) {
            assert(!pv_well_formed(pvs[i as int]));
            return false;
        }
        assert(pv_well_formed(pvs[i as int]));
        i = i + 1;
    }
    true
}

/// Tells whether an operation is well formed.
pub fn is_op_well_formed(op: &Op) -> (res: bool)
    ensures
        res == op_well_formed(op@),
{
    match op {
        Op::CreateEntity(ce) => are_values_well_formed(&ce.values),
        Op::UpdateEntity(ue) => {
            proof {
                assert(crate::codec::primitives::ids_well_formed(ids_view(ue.unset_properties@)));
            }
            are_values_well_formed(&ue.set_properties) && are_values_well_formed(&ue.add_values)
                && are_values_well_formed(&ue.remove_values) && ue.unset_properties.len()
                <= MAX_VALUES_PER_ENTITY
        },
        _ => true,
    }
}

/// Tells whether the dictionaries hold the property of each value of a list
/// under the data type of the value.
pub(crate) fn are_values_typed(values: &Vec<PropertyValue>, dicts: &DictionaryBuilder) -> (res: bool)
    requires
        pvs_resolve(property_values_view(values@), dicts@),
    ensures
        res == pvs_typed(property_values_view(values@), dicts@),
{
    let ghost pvs = property_values_view(values@);
    let types = dicts.property_types();
    let mut i: usize = 0;
    while i < values.len()
        invariant
            i <= values.len(),
            pvs == property_values_view(values@),
            pvs_resolve(pvs, dicts@),
            types@ == dicts@.property_types,
            types@.len() == dicts@.property_ids.len(),
            forall|j: int| 0 <= j < i ==> pv_typed(#[trigger] pvs[j], dicts@),
        decreases values.len() - i,
    {
        assert(pv_resolves(pvs[i as int], dicts@));
        let index: usize = match dicts.find_property(&values[i].property) {
            Some(k) => k,
            None => 0,
        };
        if types[index] != values[i].value.data_type() {
            assert(!pv_typed(pvs[i as int], dicts@));
            return false;
        }
        assert(pv_typed(pvs[i as int], dicts@));
        i = i + 1;
    }
    true
}

/// Tells whether the dictionaries hold the property of each value of an
/// operation under the data type of the value.
pub(crate) fn is_op_typed(op: &Op, dicts: &DictionaryBuilder) -> (res: bool)
    requires
        op_resolves(op@, dicts@),
    ensures
        res == op_typed(op@, dicts@),
{
    match op {
        Op::CreateEntity(ce) => are_values_typed(&ce.values, dicts),
        Op::UpdateEntity(ue) => are_values_typed(&ue.set_properties, dicts) && are_values_typed(
            &ue.add_values,
            dicts,
        ) && are_values_typed(&ue.remove_values, dicts),
        _ => true,
    }
}

/// Where the encoder accepts a list of values from index `from` on, it
/// accepts each of them.
pub proof fn lemma_check_pvs_each(pvs: Seq<PropertyValueView>, from: int)
    requires
        0 <= from,
        check_pvs_from(pvs, from) is Ok,
    ensures
        forall|i: int| from <= i < pvs.len() ==> spec_check_value(#[trigger] pvs[i].value) is Ok,
    decreases pvs.len() - from,
{
    if from < pvs.len() {
        lemma_check_pvs_each(pvs, from + 1);
    }
}

/// A list of values can make the round trip where it is well formed, the
/// encoder accepts it, and the dictionaries hold what it refers to, each
/// property under the type of its values.
#[verifier::rlimit(50)]
pub proof fn lemma_pvs_valid(pvs: Seq<PropertyValueView>, d: DictView)
    requires
        pvs_well_formed(pvs),
        check_pvs_from(pvs, 0) is Ok,
        pvs_resolve(pvs, d),
        pvs_typed(pvs, d),
    ensures
        pvs_valid(pvs, d),
{
    lemma_check_pvs_each(pvs, 0);
    assert forall|i: int| 0 <= i < pvs.len() implies pv_valid(#[trigger] pvs[i], d) by {
        assert(pv_well_formed(pvs[i]));
        assert(pv_resolves(pvs[i], d));
        assert(pv_typed(pvs[i], d));
        assert(spec_check_value(pvs[i].value) is Ok);
    }
}

/// An operation can make the round trip where it is well formed, the
/// encoder accepts it, and the dictionaries hold what it refers to, each
/// property under the type of its values.
#[verifier::rlimit(50)]
pub proof fn lemma_op_valid(op: OpView, d: DictView)
    requires
        op_well_formed(op),
        spec_check_op(op) is Ok,
        op_resolves(op, d),
        op_typed(op, d),
    ensures
        op_valid(op, d),
{
    match op {
        OpView::CreateEntity { id, values } => {
            lemma_pvs_valid(values, d);
        },
        OpView::UpdateEntity { id, set_properties, add_values, remove_values, unset_properties } => {
            lemma_pvs_valid(set_properties, d);
            lemma_pvs_valid(add_values, d);
            lemma_pvs_valid(remove_values, d);
        },
        _ => {},
    }
}

/// Every property has a type, and every identifier has sixteen bytes.
pub open spec fn dict_shaped(d: DictView) -> bool {
    &&& d.property_ids.len() == d.property_types.len()
    &&& crate::codec::primitives::ids_well_formed(d.property_ids)
    &&& crate::codec::primitives::ids_well_formed(d.relation_types)
    &&& crate::codec::primitives::ids_well_formed(d.languages)
    &&& crate::codec::primitives::ids_well_formed(d.objects)
}

/// Adding an identifier of sixteen bytes keeps a list of such identifiers.
pub proof fn lemma_intern_list_shaped(list: Seq<Seq<u8>>, id: Seq<u8>)
    requires
        crate::codec::primitives::ids_well_formed(list),
        id.len() == 16,
    ensures
        crate::codec::primitives::ids_well_formed(crate::model::edit::intern_list(list, id)),
{
}

/// Adding a well-formed property value keeps the dictionaries well shaped.
pub proof fn lemma_intern_pv_shaped(d: DictView, pv: PropertyValueView, types: Map<Seq<u8>, DataType>)
    requires
        dict_shaped(d),
        pv.property.len() == 16,
        value_ids_ok(pv.value),
    ensures
        dict_shaped(intern_pv(d, pv, types)),
{
    let mid = d.add_property(pv.property, type_for(types, pv));
    assert(dict_shaped(mid));
    match pv.value {
        crate::model::value::ValueView::Text { value, language } => {
            if language is Some {
                lemma_intern_list_shaped(mid.languages, language->0);
            }
        },
        crate::model::value::ValueView::Ref(id) => {
            lemma_intern_list_shaped(mid.objects, id);
        },
        _ => {},
    }
}

/// Adding well-formed property values keeps the dictionaries well shaped.
pub proof fn lemma_intern_pvs_shaped(d: DictView, pvs: Seq<PropertyValueView>, types: Map<Seq<u8>, DataType>)
    requires
        dict_shaped(d),
        forall|i: int| 0 <= i < pvs.len() ==> pv_well_formed(#[trigger] pvs[i]),
    ensures
        dict_shaped(intern_pvs(d, pvs, types)),
    decreases pvs.len(),
{
    if pvs.len() > 0 {
        let init = pvs.drop_last();
        assert forall|i: int| 0 <= i < init.len() implies pv_well_formed(#[trigger] init[i]) by {
            assert(init[i] == pvs[i]);
        }
        lemma_intern_pvs_shaped(d, init, types);
        assert(pv_well_formed(pvs[pvs.len() - 1]));
        lemma_intern_pv_shaped(intern_pvs(d, init, types), pvs.last(), types);
    }
}

/// Adding properties to clear keeps the dictionaries well shaped.
pub proof fn lemma_intern_unset_shaped(d: DictView, ids: Seq<Seq<u8>>)
    requires
        dict_shaped(d),
        crate::codec::primitives::ids_well_formed(ids),
    ensures
        dict_shaped(intern_unset(d, ids)),
    decreases ids.len(),
{
    if ids.len() > 0 {
        let init = ids.drop_last();
        assert forall|i: int| 0 <= i < init.len() implies (#[trigger] init[i]).len() == 16 by {
            assert(init[i] == ids[i]);
        }
        lemma_intern_unset_shaped(d, init);
        assert(ids[ids.len() - 1].len() == 16);
    }
}

/// Adding the identifiers of a well-formed operation keeps the dictionaries
/// well shaped.
#[verifier::rlimit(50)]
pub proof fn lemma_intern_op_shaped(d: DictView, op: OpView, types: Map<Seq<u8>, DataType>)
    requires
        dict_shaped(d),
        op_well_formed(op),
    ensures
        dict_shaped(intern_op(d, op, types)),
{
    match op {
        OpView::CreateProperty { id, data_type } => {},
        OpView::CreateEntity { id, values } => {
            lemma_intern_pvs_shaped(d, values, types);
        },
        OpView::UpdateEntity { id, set_properties, add_values, remove_values, unset_properties } => {
            let d1 = d.add_object(id);
            lemma_intern_list_shaped(d.objects, id);
            let d2 = intern_pvs(d1, set_properties, types);
            lemma_intern_pvs_shaped(d1, set_properties, types);
            let d3 = intern_pvs(d2, add_values, types);
            lemma_intern_pvs_shaped(d2, add_values, types);
            let d4 = intern_pvs(d3, remove_values, types);
            lemma_intern_pvs_shaped(d3, remove_values, types);
            lemma_intern_unset_shaped(d4, unset_properties);
        },
        OpView::DeleteEntity { id } => {
            lemma_intern_list_shaped(d.objects, id);
        },
        OpView::CreateRelation { id, from, to, relation_type, position, verified } => {
            lemma_intern_list_shaped(d.relation_types, relation_type);
            let d1 = d.add_relation_type(relation_type);
            lemma_intern_list_shaped(d1.objects, from);
            let d2 = d1.add_object(from);
            lemma_intern_list_shaped(d2.objects, to);
        },
        OpView::UpdateRelation { id, position, verified } => {
            lemma_intern_list_shaped(d.objects, id);
        },
        OpView::DeleteRelation { id } => {
            lemma_intern_list_shaped(d.objects, id);
        },
    }
}

/// Decoding the encodings of a list of property values gives the list back,
/// behind what was read before.
#[verifier::rlimit(50)]
pub proof fn lemma_pvs_roundtrip_from(
    pvs: Seq<PropertyValueView>,
    acc: Seq<PropertyValueView>,
    d: DictView,
    rest: Seq<u8>,
)
    requires
        forall|i: int| 0 <= i < pvs.len() ==> pv_valid(#[trigger] pvs[i], d),
        dict_in_range(d),
    ensures
        spec_read_pvs_from(concat(pv_parts(pvs, d)) + rest, pvs.len(), acc, d) == Ok::<
            (Seq<PropertyValueView>, Seq<u8>),
            DecodeError,
        >((acc + canonical_pvs(pvs), rest)),
    decreases pvs.len(),
{
    if pvs.len() == 0 {
        assert(concat(pv_parts(pvs, d)) + rest =~= rest);
        assert(acc + canonical_pvs(pvs) =~= acc);
    } else {
        let parts = pv_parts(pvs, d);
        let tail = pvs.drop_first();
        crate::codec::primitives::lemma_concat_first(parts);
        assert(parts.drop_first() =~= pv_parts(tail, d));
        assert(concat(parts) + rest =~= property_value_bytes(pvs[0], d) + (concat(pv_parts(tail, d)) + rest));
        assert(pv_valid(pvs[0], d));
        crate::codec::value::lemma_property_value_roundtrip(pvs[0], d, concat(pv_parts(tail, d)) + rest);
        assert forall|i: int| 0 <= i < tail.len() implies pv_valid(#[trigger] tail[i], d) by {
            assert(tail[i] == pvs[i + 1]);
        }
        lemma_pvs_roundtrip_from(tail, acc.push(canonical_pv(pvs[0])), d, rest);
        assert(acc.push(canonical_pv(pvs[0])) + canonical_pvs(tail) =~= acc + canonical_pvs(pvs));
    }
}

/// Decoding an encoded list of property values gives it back.
#[verifier::rlimit(50)]
pub proof fn lemma_pv_vec_roundtrip(pvs: Seq<PropertyValueView>, d: DictView, context: &'static str, rest: Seq<u8>)
    requires
        pvs_valid(pvs, d),
        dict_in_range(d),
    ensures
        spec_read_pv_vec(pv_vec_bytes(pvs, d) + rest, d, context) == Ok::<
            (Seq<PropertyValueView>, Seq<u8>),
            DecodeError,
        >((canonical_pvs(pvs), rest)),
{
    let body = concat(pv_parts(pvs, d)) + rest;
    assert(pv_vec_bytes(pvs, d) + rest =~= varint_bytes(pvs.len()) + body);
    crate::codec::primitives::lemma_varint_roundtrip(pvs.len() as u64, body, context);
    lemma_pvs_roundtrip_from(pvs, Seq::empty(), d, rest);
    assert(Seq::<PropertyValueView>::empty() + canonical_pvs(pvs) =~= canonical_pvs(pvs));
}

/// Decoding the encoded indices of a list of properties gives the list back,
/// behind what was read before.
#[verifier::rlimit(50)]
pub proof fn lemma_property_refs_roundtrip_from(ids: Seq<Seq<u8>>, acc: Seq<Seq<u8>>, d: DictView, rest: Seq<u8>)
    requires
        ids_resolve(ids, d.property_ids),
        dict_in_range(d),
    ensures
        spec_read_property_refs_from(concat(property_index_parts(ids, d)) + rest, ids.len(), acc, d) == Ok::<
            (Seq<Seq<u8>>, Seq<u8>),
            DecodeError,
        >((acc + ids, rest)),
    decreases ids.len(),
{
    if ids.len() == 0 {
        assert(concat(property_index_parts(ids, d)) + rest =~= rest);
        assert(acc + ids =~= acc);
    } else {
        let parts = property_index_parts(ids, d);
        let tail = ids.drop_first();
        crate::codec::primitives::lemma_concat_first(parts);
        assert(parts.drop_first() =~= property_index_parts(tail, d));
        let after = concat(property_index_parts(tail, d)) + rest;
        assert(concat(parts) + rest =~= parts[0] + after);
        assert(d.property_ids.contains(ids[0]));
        let i = d.property_ids.index_of(ids[0]);
        assert(0 <= i < d.property_ids.len() && d.property_ids[i] == ids[0]);
        crate::codec::primitives::lemma_varint_roundtrip(i as u64, after, "unset_properties");
        assert forall|k: int| 0 <= k < tail.len() implies d.property_ids.contains(#[trigger] tail[k]) by {
            assert(tail[k] == ids[k + 1]);
        }
        lemma_property_refs_roundtrip_from(tail, acc.push(ids[0]), d, rest);
        assert(acc.push(ids[0]) + tail =~= acc + ids);
    }
}

/// Decoding an encoded list of properties gives it back.
pub proof fn lemma_property_refs_roundtrip(ids: Seq<Seq<u8>>, d: DictView, rest: Seq<u8>)
    requires
        ids_resolve(ids, d.property_ids),
        ids.len() <= MAX_VALUES_PER_ENTITY,
        dict_in_range(d),
    ensures
        spec_read_property_refs(property_indices_bytes(ids, d) + rest, d) == Ok::<
            (Seq<Seq<u8>>, Seq<u8>),
            DecodeError,
        >((ids, rest)),
{
    let body = concat(property_index_parts(ids, d)) + rest;
    assert(property_indices_bytes(ids, d) + rest =~= varint_bytes(ids.len()) + body);
    crate::codec::primitives::lemma_varint_roundtrip(ids.len() as u64, body, "unset_properties");
    lemma_property_refs_roundtrip_from(ids, Seq::empty(), d, rest);
    assert(Seq::<Seq<u8>>::empty() + ids =~= ids);
}

/// Decoding the encoded index of an object gives the object back.
pub proof fn lemma_object_ref_roundtrip(id: Seq<u8>, d: DictView, context: &'static str, rest: Seq<u8>)
    requires
        d.objects.contains(id),
        dict_in_range(d),
    ensures
        spec_read_object_ref(object_index_bytes(id, d) + rest, d, context) == Ok::<(Seq<u8>, Seq<u8>), DecodeError>(
            (id, rest),
        ),
{
    let i = d.objects.index_of(id);
    assert(0 <= i < d.objects.len() && d.objects[i] == id);
    crate::codec::primitives::lemma_varint_roundtrip(i as u64, rest, context);
}

/// Decoding an encoded optional position gives it back.
pub proof fn lemma_opt_position_roundtrip(position: Option<Seq<char>>, rest: Seq<u8>)
    requires
        spec_check_opt_position(position) is Ok,
    ensures
        spec_read_opt_position(opt_position_bytes(position) + rest) == Ok::<
            (Option<Seq<char>>, Seq<u8>),
            DecodeError,
        >((position, rest)),
{
    match position {
        Some(s) => {
            assert(opt_position_bytes(position) + rest =~= seq![1u8] + (string_bytes(s) + rest));
            crate::codec::value::lemma_byte_roundtrip(1u8, string_bytes(s) + rest, "position.flag");
            crate::codec::primitives::lemma_string_roundtrip(
                s,
                crate::limits::MAX_POSITION_LEN as nat,
                rest,
                "position",
            );
        },
        None => {
            crate::codec::value::lemma_byte_roundtrip(0u8, rest, "position.flag");
        },
    }
}

/// Decoding an encoded verification mark gives it back.
pub proof fn lemma_verified_roundtrip(verified: Option<bool>, rest: Seq<u8>)
    ensures
        spec_read_verified(seq![verified_code(verified)] + rest) == Ok::<(Option<bool>, Seq<u8>), DecodeError>(
            (verified, rest),
        ),
{
    crate::codec::value::lemma_byte_roundtrip(verified_code(verified), rest, "verified");
}

/// The body of an encoded `UpdateEntity`, with the input that follows it.
pub open spec fn update_entity_body(op: OpView, d: DictView, rest: Seq<u8>) -> Seq<u8> {
    object_index_bytes(op->UpdateEntity_id, d) + (pv_vec_bytes(op->UpdateEntity_set_properties, d) + (pv_vec_bytes(
        op->UpdateEntity_add_values,
        d,
    ) + (pv_vec_bytes(op->UpdateEntity_remove_values, d) + (property_indices_bytes(
        op->UpdateEntity_unset_properties,
        d,
    ) + rest))))
}

/// Decoding the body of an encoded `UpdateEntity` gives the operation back.
#[verifier::rlimit(50)]
pub proof fn lemma_update_entity_body_roundtrip(op: OpView, d: DictView, rest: Seq<u8>)
    requires
        op is UpdateEntity,
        op_valid(op, d),
        dict_in_range(d),
    ensures
        spec_read_update_entity(update_entity_body(op, d, rest), d) == Ok::<(OpView, Seq<u8>), DecodeError>(
            (canonical_op(op), rest),
        ),
{
    let id = op->UpdateEntity_id;
    let set_properties = op->UpdateEntity_set_properties;
    let add_values = op->UpdateEntity_add_values;
    let remove_values = op->UpdateEntity_remove_values;
    let unset_properties = op->UpdateEntity_unset_properties;
    let b5 = property_indices_bytes(unset_properties, d) + rest;
    let b4 = pv_vec_bytes(remove_values, d) + b5;
    let b3 = pv_vec_bytes(add_values, d) + b4;
    let b2 = pv_vec_bytes(set_properties, d) + b3;
    lemma_object_ref_roundtrip(id, d, "entity", b2);
    lemma_pv_vec_roundtrip(set_properties, d, "set_properties", b3);
    lemma_pv_vec_roundtrip(add_values, d, "add_values", b4);
    lemma_pv_vec_roundtrip(remove_values, d, "remove_values", b5);
    lemma_property_refs_roundtrip(unset_properties, d, rest);
}

/// Decoding an encoded `UpdateEntity` gives it back.
#[verifier::rlimit(50)]
pub proof fn lemma_update_entity_roundtrip(op: OpView, d: DictView, rest: Seq<u8>)
    requires
        op is UpdateEntity,
        op_valid(op, d),
        dict_in_range(d),
    ensures
        spec_read_op(op_bytes(op, d) + rest, d) == Ok::<(OpView, Seq<u8>), DecodeError>((canonical_op(op), rest)),
{
    let body = update_entity_body(op, d, rest);
    let tag = seq![OP_UPDATE_ENTITY];
    let a1 = object_index_bytes(op->UpdateEntity_id, d);
    let a2 = pv_vec_bytes(op->UpdateEntity_set_properties, d);
    let a3 = pv_vec_bytes(op->UpdateEntity_add_values, d);
    let a4 = pv_vec_bytes(op->UpdateEntity_remove_values, d);
    let a5 = property_indices_bytes(op->UpdateEntity_unset_properties, d);
    assert(op_bytes(op, d) == tag + a1 + a2 + a3 + a4 + a5);
    lemma_concat_assoc(tag + a1 + a2 + a3 + a4, a5, rest);
    lemma_concat_assoc(tag + a1 + a2 + a3, a4, a5 + rest);
    lemma_concat_assoc(tag + a1 + a2, a3, a4 + (a5 + rest));
    lemma_concat_assoc(tag + a1, a2, a3 + (a4 + (a5 + rest)));
    lemma_concat_assoc(tag, a1, a2 + (a3 + (a4 + (a5 + rest))));
    assert(op_bytes(op, d) + rest == tag + body);
    crate::codec::value::lemma_byte_roundtrip(OP_UPDATE_ENTITY, body, "op_type");
    lemma_update_entity_body_roundtrip(op, d, rest);
}

/// Decoding the encoded identifier mode of a relation gives it back.
pub proof fn lemma_relation_id_roundtrip(id: Option<Seq<u8>>, rest: Seq<u8>)
    requires
        id is Some ==> id->0.len() == 16,
    ensures
        spec_read_relation_id(relation_id_bytes(id) + rest) == Ok::<(Option<Seq<u8>>, Seq<u8>), DecodeError>(
            (id, rest),
        ),
{
    match id {
        Some(explicit) => {
            assert(relation_id_bytes(id) + rest =~= seq![1u8] + (explicit + rest));
            crate::codec::value::lemma_byte_roundtrip(1u8, explicit + rest, "relation.id_mode");
            crate::codec::primitives::lemma_bytes_roundtrip(explicit, rest, "relation.id");
        },
        None => {
            crate::codec::value::lemma_byte_roundtrip(0u8, rest, "relation.id_mode");
        },
    }
}

/// Decoding the encoded index of a relation type gives the type back.
pub proof fn lemma_relation_type_ref_roundtrip(id: Seq<u8>, d: DictView, rest: Seq<u8>)
    requires
        d.relation_types.contains(id),
        dict_in_range(d),
    ensures
        spec_read_relation_type_ref(varint_bytes(d.relation_types.index_of(id) as nat) + rest, d) == Ok::<
            (Seq<u8>, Seq<u8>),
            DecodeError,
        >((id, rest)),
{
    let i = d.relation_types.index_of(id);
    assert(0 <= i < d.relation_types.len() && d.relation_types[i] == id);
    crate::codec::primitives::lemma_varint_roundtrip(i as u64, rest, "relation_type");
}

/// The body of an encoded `CreateRelation`, with the input that follows it.
pub open spec fn create_relation_body(op: OpView, d: DictView, rest: Seq<u8>) -> Seq<u8> {
    relation_id_bytes(op->CreateRelation_id) + (varint_bytes(
        d.relation_types.index_of(op->CreateRelation_relation_type) as nat,
    ) + (object_index_bytes(op->CreateRelation_from, d) + (object_index_bytes(op->CreateRelation_to, d) + (
    opt_position_bytes(op->CreateRelation_position) + (seq![verified_code(op->CreateRelation_verified)]
        + rest)))))
}

/// Decoding the body of an encoded `CreateRelation` gives the operation back.
#[verifier::rlimit(50)]
pub proof fn lemma_create_relation_body_roundtrip(op: OpView, d: DictView, rest: Seq<u8>)
    requires
        op is CreateRelation,
        op_valid(op, d),
        dict_in_range(d),
    ensures
        spec_read_create_relation(create_relation_body(op, d, rest), d) == Ok::<(OpView, Seq<u8>), DecodeError>(
            (op, rest),
        ),
{
    let id = op->CreateRelation_id;
    let from = op->CreateRelation_from;
    let to = op->CreateRelation_to;
    let relation_type = op->CreateRelation_relation_type;
    let position = op->CreateRelation_position;
    let verified = op->CreateRelation_verified;
    let b6 = seq![verified_code(verified)] + rest;
    let b5 = opt_position_bytes(position) + b6;
    let b4 = object_index_bytes(to, d) + b5;
    let b3 = object_index_bytes(from, d) + b4;
    let b2 = varint_bytes(d.relation_types.index_of(relation_type) as nat) + b3;
    lemma_relation_id_roundtrip(id, b2);
    lemma_relation_type_ref_roundtrip(relation_type, d, b3);
    lemma_object_ref_roundtrip(from, d, "from", b4);
    lemma_object_ref_roundtrip(to, d, "to", b5);
    lemma_opt_position_roundtrip(position, b6);
    lemma_verified_roundtrip(verified, rest);
}

/// Decoding an encoded `CreateRelation` gives it back.
#[verifier::rlimit(50)]
pub proof fn lemma_create_relation_roundtrip(op: OpView, d: DictView, rest: Seq<u8>)
    requires
        op is CreateRelation,
        op_valid(op, d),
        dict_in_range(d),
    ensures
        spec_read_op(op_bytes(op, d) + rest, d) == Ok::<(OpView, Seq<u8>), DecodeError>((canonical_op(op), rest)),
{
    let body = create_relation_body(op, d, rest);
    let tag = seq![OP_CREATE_RELATION];
    let a1 = relation_id_bytes(op->CreateRelation_id);
    let a2 = varint_bytes(d.relation_types.index_of(op->CreateRelation_relation_type) as nat);
    let a3 = object_index_bytes(op->CreateRelation_from, d);
    let a4 = object_index_bytes(op->CreateRelation_to, d);
    let a5 = opt_position_bytes(op->CreateRelation_position);
    let a6 = seq![verified_code(op->CreateRelation_verified)];
    assert(op_bytes(op, d) == tag + a1 + a2 + a3 + a4 + a5 + a6);
    lemma_concat_assoc(tag + a1 + a2 + a3 + a4 + a5, a6, rest);
    lemma_concat_assoc(tag + a1 + a2 + a3 + a4, a5, a6 + rest);
    lemma_concat_assoc(tag + a1 + a2 + a3, a4, a5 + (a6 + rest));
    lemma_concat_assoc(tag + a1 + a2, a3, a4 + (a5 + (a6 + rest)));
    lemma_concat_assoc(tag + a1, a2, a3 + (a4 + (a5 + (a6 + rest))));
    lemma_concat_assoc(tag, a1, a2 + (a3 + (a4 + (a5 + (a6 + rest)))));
    assert(op_bytes(op, d) + rest == tag + body);
    crate::codec::value::lemma_byte_roundtrip(OP_CREATE_RELATION, body, "op_type");
    lemma_create_relation_body_roundtrip(op, d, rest);
}

/// Concatenation is associative.
pub proof fn lemma_concat_assoc(a: Seq<u8>, b: Seq<u8>, c: Seq<u8>)
    ensures
        (a + b) + c == a + (b + c),
{
    assert((a + b) + c =~= a + (b + c));
}

/// Decoding an encoded `UpdateRelation` gives it back.
#[verifier::rlimit(50)]
pub proof fn lemma_update_relation_roundtrip(op: OpView, d: DictView, rest: Seq<u8>)
    requires
        op is UpdateRelation,
        op_valid(op, d),
        dict_in_range(d),
    ensures
        spec_read_op(op_bytes(op, d) + rest, d) == Ok::<(OpView, Seq<u8>), DecodeError>((canonical_op(op), rest)),
{
    let id = op->UpdateRelation_id;
    let position = op->UpdateRelation_position;
    let verified = op->UpdateRelation_verified;
    let b3 = seq![verified_code(verified)] + rest;
    let b2 = opt_position_bytes(position) + b3;
    let b1 = object_index_bytes(id, d) + b2;
    let tag = seq![OP_UPDATE_RELATION];
    assert(op_bytes(op, d) == tag + object_index_bytes(id, d) + opt_position_bytes(position) + seq![
        verified_code(verified),
    ]);
    lemma_concat_assoc(
        tag + object_index_bytes(id, d) + opt_position_bytes(position),
        seq![verified_code(verified)],
        rest,
    );
    lemma_concat_assoc(tag + object_index_bytes(id, d), opt_position_bytes(position), b3);
    lemma_concat_assoc(tag, object_index_bytes(id, d), b2);
    assert(op_bytes(op, d) + rest == tag + b1);
    crate::codec::value::lemma_byte_roundtrip(OP_UPDATE_RELATION, b1, "op_type");
    lemma_object_ref_roundtrip(id, d, "relation", b2);
    lemma_opt_position_roundtrip(position, b3);
    lemma_verified_roundtrip(verified, rest);
}

/// Decoding an encoded `CreateProperty` gives it back.
#[verifier::rlimit(50)]
pub proof fn lemma_create_property_roundtrip(op: OpView, d: DictView, rest: Seq<u8>)
    requires
        op is CreateProperty,
        op_valid(op, d),
    ensures
        spec_read_op(op_bytes(op, d) + rest, d) == Ok::<(OpView, Seq<u8>), DecodeError>((canonical_op(op), rest)),
{
    let id = op->CreateProperty_id;
    let code = seq![op->CreateProperty_data_type.spec_code()];
    let tag = seq![OP_CREATE_PROPERTY];
    let b2 = code + rest;
    let b1 = id + b2;
    assert(op_bytes(op, d) == tag + id + code);
    lemma_concat_assoc(tag + id, code, rest);
    lemma_concat_assoc(tag, id, b2);
    assert(op_bytes(op, d) + rest == tag + b1);
    crate::codec::value::lemma_byte_roundtrip(OP_CREATE_PROPERTY, b1, "op_type");
    crate::codec::primitives::lemma_bytes_roundtrip(id, b2, "property_id");
    crate::codec::value::lemma_byte_roundtrip(op->CreateProperty_data_type.spec_code(), rest, "data_type");
    assert(spec_read_create_property(b1) == Ok::<(OpView, Seq<u8>), DecodeError>((op, rest)));
}

/// Decoding an encoded `CreateEntity` gives it back.
#[verifier::rlimit(50)]
pub proof fn lemma_create_entity_roundtrip(op: OpView, d: DictView, rest: Seq<u8>)
    requires
        op is CreateEntity,
        op_valid(op, d),
        dict_in_range(d),
    ensures
        spec_read_op(op_bytes(op, d) + rest, d) == Ok::<(OpView, Seq<u8>), DecodeError>((canonical_op(op), rest)),
{
    let id = op->CreateEntity_id;
    let values = op->CreateEntity_values;
    let tag = seq![OP_CREATE_ENTITY];
    let b2 = pv_vec_bytes(values, d) + rest;
    let b1 = id + b2;
    assert(op_bytes(op, d) == tag + id + pv_vec_bytes(values, d));
    lemma_concat_assoc(tag + id, pv_vec_bytes(values, d), rest);
    lemma_concat_assoc(tag, id, b2);
    assert(op_bytes(op, d) + rest == tag + b1);
    crate::codec::value::lemma_byte_roundtrip(OP_CREATE_ENTITY, b1, "op_type");
    crate::codec::primitives::lemma_bytes_roundtrip(id, b2, "entity_id");
    lemma_pv_vec_roundtrip(values, d, "values", rest);
    assert(spec_read_create_entity(b1, d) == Ok::<(OpView, Seq<u8>), DecodeError>((canonical_op(op), rest)));
}

/// Decoding an encoded `DeleteEntity` or `DeleteRelation` gives it back.
#[verifier::rlimit(50)]
pub proof fn lemma_delete_roundtrip(op: OpView, d: DictView, rest: Seq<u8>)
    requires
        op is DeleteEntity || op is DeleteRelation,
        op_valid(op, d),
        dict_in_range(d),
    ensures
        spec_read_op(op_bytes(op, d) + rest, d) == Ok::<(OpView, Seq<u8>), DecodeError>((canonical_op(op), rest)),
{
    match op {
        OpView::DeleteEntity { id } => {
            let b1 = object_index_bytes(id, d) + rest;
            lemma_concat_assoc(seq![OP_DELETE_ENTITY], object_index_bytes(id, d), rest);
            assert(op_bytes(op, d) + rest == seq![OP_DELETE_ENTITY] + b1);
            crate::codec::value::lemma_byte_roundtrip(OP_DELETE_ENTITY, b1, "op_type");
            lemma_object_ref_roundtrip(id, d, "entity", rest);
        },
        OpView::DeleteRelation { id } => {
            let b1 = object_index_bytes(id, d) + rest;
            lemma_concat_assoc(seq![OP_DELETE_RELATION], object_index_bytes(id, d), rest);
            assert(op_bytes(op, d) + rest == seq![OP_DELETE_RELATION] + b1);
            crate::codec::value::lemma_byte_roundtrip(OP_DELETE_RELATION, b1, "op_type");
            lemma_object_ref_roundtrip(id, d, "relation", rest);
        },
        _ => {},
    }
}

/// Decoding what the encoder wrote for an operation gives the operation
/// back, and the input that follows it.
///
/// This holds of every operation that can make the round trip through the
/// dictionaries. A binary64 negative zero comes back as positive zero.
#[verifier::rlimit(50)]
pub proof fn lemma_op_roundtrip(op: OpView, d: DictView, rest: Seq<u8>)
    requires
        op_valid(op, d),
        dict_in_range(d),
    ensures
        spec_read_op(op_bytes(op, d) + rest, d) == Ok::<(OpView, Seq<u8>), DecodeError>((canonical_op(op), rest)),
{
    if op is CreateProperty {
        lemma_create_property_roundtrip(op, d, rest);
    } else if op is CreateEntity {
        lemma_create_entity_roundtrip(op, d, rest);
    } else if op is UpdateEntity {
        lemma_update_entity_roundtrip(op, d, rest);
    } else if op is DeleteEntity || op is DeleteRelation {
        lemma_delete_roundtrip(op, d, rest);
    } else if op is CreateRelation {
        lemma_create_relation_roundtrip(op, d, rest);
    } else {
        lemma_update_relation_roundtrip(op, d, rest);
    }
}

} // verus!
