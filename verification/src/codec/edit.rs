//! Wire format of edits.
//!
//! An uncompressed edit is the magic `GRC2`, the format version, and a body:
//! the edit's identifier, name, authors and creation time, the four
//! dictionaries, and the operations. A compressed edit is the magic `GRC2Z`,
//! the length of the uncompressed edit as a varint, and that edit as a zstd
//! stream.
//!
//! The encoder makes two passes over the operations. The first builds the
//! dictionaries in first-seen order; the second writes the operations with
//! the indices that the dictionaries give.

use vstd::prelude::*;
use vstd::utf8::encode_utf8;
use crate::codec::op::check_op;
use crate::codec::op::decode_op;
use crate::codec::op::intern_op;
use crate::codec::op::lemma_intern_op_grows;
use crate::codec::op::lemma_op_resolves_monotone;
use crate::codec::op::op_bytes;
use crate::codec::op::op_resolves;
use crate::codec::op::put_op;
use crate::codec::op::spec_check_op;
use crate::codec::op::spec_read_op;
use crate::codec::primitives::Reader;
use crate::codec::primitives::Writer;
use crate::codec::primitives::Parsed;
use crate::codec::primitives::concat;
use crate::codec::primitives::id_vec_bytes;
use crate::codec::primitives::ids_view;
use crate::codec::primitives::lemma_concat_push;
use crate::codec::primitives::signed_varint_bytes;
use crate::codec::primitives::spec_read_byte;
use crate::codec::primitives::spec_read_bytes;
use crate::codec::primitives::spec_read_id;
use crate::codec::primitives::spec_read_id_vec;
use crate::codec::primitives::spec_read_signed_varint;
use crate::codec::primitives::spec_read_string;
use crate::codec::primitives::spec_read_varint;
use crate::codec::primitives::string_bytes;
use crate::codec::primitives::varint_bytes;
use crate::error::DecodeError;
use crate::error::EncodeError;
use crate::limits::FORMAT_VERSION;
use crate::limits::MAGIC_COMPRESSED;
use crate::limits::MAGIC_UNCOMPRESSED;
use crate::limits::MAX_AUTHORS;
use crate::limits::MAX_DICT_SIZE;
use crate::limits::MAX_EDIT_SIZE;
use crate::limits::MAX_OPS_PER_EDIT;
use crate::limits::MAX_STRING_LEN;
use crate::model::edit::DictView;
use crate::model::edit::DictionaryBuilder;
use crate::model::edit::Edit;
use crate::model::edit::EditView;
use crate::model::edit::TypeTable;
use crate::model::edit::WireDictionaries;
use crate::model::id::Id;
use crate::model::op::Op;
use crate::model::op::OpView;
use crate::model::op::ops_view;
use crate::model::value::DataType;
use crate::model::value::PropertyValue;
use crate::model::value::PropertyValueView;
use crate::model::value::property_values_view;

verus! {

// ---------------------------------------------------------------------------
// First pass: dictionaries and property types
// ---------------------------------------------------------------------------

/// The property types after a list of property values: a property without
/// a type gets the type of its first value.
pub open spec fn types_after_pvs(types: Map<Seq<u8>, DataType>, pvs: Seq<PropertyValueView>) -> Map<
    Seq<u8>,
    DataType,
>
    decreases pvs.len(),
{
    if pvs.len() == 0 {
        types
    } else {
        let before = types_after_pvs(types, pvs.drop_last());
        let pv = pvs.last();
        if before.contains_key(pv.property) {
            before
        } else {
            before.insert(pv.property, pv.value.data_type())
        }
    }
}

/// The property types after an operation: `CreateProperty` sets the type of
/// its property; values give a type to properties that have none.
pub open spec fn types_after_op(types: Map<Seq<u8>, DataType>, op: OpView) -> Map<Seq<u8>, DataType> {
    match op {
        OpView::CreateProperty { id, data_type } => types.insert(id, data_type),
        OpView::CreateEntity { id, values } => types_after_pvs(types, values),
        OpView::UpdateEntity { id, set_properties, add_values, remove_values, unset_properties } => types_after_pvs(
            types_after_pvs(types_after_pvs(types, set_properties), add_values),
            remove_values,
        ),
        _ => types,
    }
}

/// The property types that the first pass has recorded after `ops`.
pub open spec fn types_of(ops: Seq<OpView>) -> Map<Seq<u8>, DataType>
    decreases ops.len(),
{
    if ops.len() == 0 {
        Map::empty()
    } else {
        types_after_op(types_of(ops.drop_last()), ops.last())
    }
}

/// The dictionaries of an edit: every identifier that the operations refer
/// to by index, in first-seen order. A property stands under the type
/// recorded for it when it is first seen, else under the type of the value
/// it is first seen with, else, where it is first seen in a list of
/// properties to clear, as `Bool`.
pub open spec fn dictionaries_of(ops: Seq<OpView>) -> DictView
    decreases ops.len(),
{
    if ops.len() == 0 {
        DictView::empty()
    } else {
        intern_op(dictionaries_of(ops.drop_last()), ops.last(), types_of(ops.drop_last()))
    }
}

/// The dictionaries of an edit hold every identifier that its operations
/// refer to by index.
#[verifier::rlimit(50)]
pub proof fn lemma_dictionaries_resolve(ops: Seq<OpView>)
    ensures
        forall|i: int| 0 <= i < ops.len() ==> op_resolves(#[trigger] ops[i], dictionaries_of(ops)),
    decreases ops.len(),
{
    if ops.len() > 0 {
        let init = ops.drop_last();
        lemma_dictionaries_resolve(init);
        lemma_intern_op_grows(dictionaries_of(init), ops.last(), types_of(init));
        assert forall|i: int| 0 <= i < ops.len() implies op_resolves(#[trigger] ops[i], dictionaries_of(ops)) by {
            if i < init.len() {
                assert(ops[i] == init[i]);
                lemma_op_resolves_monotone(init[i], dictionaries_of(init), dictionaries_of(ops));
            }
        }
    }
}

/// Records the type of the first value of each property that has no type.
#[verifier::rlimit(50)]
fn record_property_types(values: &Vec<PropertyValue>, property_types: &mut TypeTable)
    ensures
        final(property_types)@ == types_after_pvs(old(property_types)@, property_values_view(values@)),
{
    let ghost pvs = property_values_view(values@);
    let ghost t0 = property_types@;
    let mut i: usize = 0;
    proof {
        assert(pvs.take(0) =~= Seq::<PropertyValueView>::empty());
    }
    while i < values.len()
        invariant
            i <= values.len(),
            pvs == property_values_view(values@),
            property_types@ == types_after_pvs(t0, pvs.take(i as int)),
        decreases values.len() - i,
    {
        let pv = &values[i];
        if property_types.get(&pv.property).is_none() {
            property_types.insert(pv.property, pv.value.data_type());
        }
        proof {
            assert(pvs.take(i + 1).drop_last() =~= pvs.take(i as int));
            assert(pvs.take(i + 1).last() == pv@);
        }
        i = i + 1;
    }
    proof {
        assert(pvs.take(values.len() as int) =~= pvs);
    }
}

/// Adds the identifiers of property values to the dictionaries and records
/// the types of their properties.
pub fn collect_property_values(
    values: &Vec<PropertyValue>,
    builder: &mut DictionaryBuilder,
    property_types: &mut TypeTable,
)
    ensures
        final(builder)@ == crate::codec::op::intern_pvs(
            old(builder)@,
            property_values_view(values@),
            old(property_types)@,
        ),
        final(property_types)@ == types_after_pvs(old(property_types)@, property_values_view(values@)),
{
    crate::codec::op::intern_property_values(values, builder, property_types);
    record_property_types(values, property_types);
}

/// Two tables give the same type, or none, to every property that the
/// dictionaries do not hold.
pub open spec fn types_agree_outside(a: Map<Seq<u8>, DataType>, b: Map<Seq<u8>, DataType>, d: DictView) -> bool {
    forall|id: Seq<u8>|
        !d.property_ids.contains(id) ==> crate::model::edit::type_of(a, id) == #[trigger] crate::model::edit::type_of(
            b,
            id,
        )
}

/// Recording the types of values changes the table only at their properties.
#[verifier::rlimit(50)]
pub proof fn lemma_types_after_pvs_agree(types: Map<Seq<u8>, DataType>, pvs: Seq<PropertyValueView>, d: DictView)
    requires
        crate::codec::op::pvs_resolve(pvs, d),
    ensures
        types_agree_outside(types, types_after_pvs(types, pvs), d),
    decreases pvs.len(),
{
    if pvs.len() > 0 {
        let init = pvs.drop_last();
        assert forall|i: int| 0 <= i < init.len() implies crate::codec::op::pv_resolves(#[trigger] init[i], d) by {
            assert(init[i] == pvs[i]);
        }
        lemma_types_after_pvs_agree(types, init, d);
        assert(crate::codec::op::pv_resolves(pvs[pvs.len() - 1], d));
        let before = types_after_pvs(types, init);
        let after = types_after_pvs(types, pvs);
        assert forall|id: Seq<u8>| !d.property_ids.contains(id) implies crate::model::edit::type_of(types, id)
            == #[trigger] crate::model::edit::type_of(after, id) by {
            assert(crate::model::edit::type_of(types, id) == crate::model::edit::type_of(before, id));
            assert(id != pvs.last().property);
        }
    }
}

/// The dictionaries after a list of values do not depend on the types of
/// the properties that they hold already.
#[verifier::rlimit(50)]
pub proof fn lemma_intern_pvs_types(
    d: DictView,
    pvs: Seq<PropertyValueView>,
    a: Map<Seq<u8>, DataType>,
    b: Map<Seq<u8>, DataType>,
)
    requires
        types_agree_outside(a, b, d),
    ensures
        crate::codec::op::intern_pvs(d, pvs, a) == crate::codec::op::intern_pvs(d, pvs, b),
    decreases pvs.len(),
{
    if pvs.len() > 0 {
        let init = pvs.drop_last();
        lemma_intern_pvs_types(d, init, a, b);
        let mid = crate::codec::op::intern_pvs(d, init, a);
        crate::codec::op::lemma_intern_pvs_grows(d, init, a);
        let pv = pvs.last();
        if !mid.property_ids.contains(pv.property) {
            assert(!d.property_ids.contains(pv.property));
            assert(crate::model::edit::type_of(a, pv.property) == crate::model::edit::type_of(b, pv.property));
        }
    }
}

/// Tables that agree outside dictionaries agree outside larger ones, and
/// agreement is transitive.
pub proof fn lemma_types_agree_chain(
    a: Map<Seq<u8>, DataType>,
    b: Map<Seq<u8>, DataType>,
    c: Map<Seq<u8>, DataType>,
    d: DictView,
    e: DictView,
)
    requires
        types_agree_outside(a, b, d),
        types_agree_outside(b, c, e),
        crate::codec::op::dict_subset(d, e),
    ensures
        types_agree_outside(a, c, e),
{
    assert forall|id: Seq<u8>| !e.property_ids.contains(id) implies crate::model::edit::type_of(a, id)
        == #[trigger] crate::model::edit::type_of(c, id) by {
        assert(!d.property_ids.contains(id));
        assert(crate::model::edit::type_of(a, id) == crate::model::edit::type_of(b, id));
        assert(crate::model::edit::type_of(b, id) == crate::model::edit::type_of(c, id));
    }
}

/// Adds the identifiers of an operation to the dictionaries and records what
/// the operation says of the types of properties.
#[verifier::rlimit(50)]
fn collect_op(op: &Op, builder: &mut DictionaryBuilder, property_types: &mut TypeTable)
    ensures
        final(builder)@ == intern_op(old(builder)@, op@, old(property_types)@),
        final(property_types)@ == types_after_op(old(property_types)@, op@),
{
    let ghost t0 = property_types@;
    match op {
        Op::CreateEntity(ce) => {
            collect_property_values(&ce.values, builder, property_types);
        },
        Op::UpdateEntity(ue) => {
            let _ = builder.add_object(ue.id);
            let ghost d1 = builder@;
            let ghost set = property_values_view(ue.set_properties@);
            let ghost add = property_values_view(ue.add_values@);
            let ghost remove = property_values_view(ue.remove_values@);
            collect_property_values(&ue.set_properties, builder, property_types);
            let ghost d2 = builder@;
            let ghost t1 = property_types@;
            proof {
                crate::codec::op::lemma_intern_pvs_grows(d1, set, t0);
                lemma_types_after_pvs_agree(t0, set, d2);
                lemma_intern_pvs_types(d2, add, t0, t1);
            }
            collect_property_values(&ue.add_values, builder, property_types);
            let ghost d3 = builder@;
            let ghost t2 = property_types@;
            proof {
                crate::codec::op::lemma_intern_pvs_grows(d2, add, t1);
                lemma_types_after_pvs_agree(t1, add, d3);
                lemma_types_agree_chain(t0, t1, t2, d2, d3);
                lemma_intern_pvs_types(d3, remove, t0, t2);
            }
            collect_property_values(&ue.remove_values, builder, property_types);
            let mut i: usize = 0;
            let ghost d4 = builder@;
            let ghost unset = ids_view(ue.unset_properties@);
            proof {
                assert(unset.take(0) =~= Seq::<Seq<u8>>::empty());
            }
            while i < ue.unset_properties.len()
                invariant
                    i <= ue.unset_properties.len(),
                    unset == ids_view(ue.unset_properties@),
                    builder@ == crate::codec::op::intern_unset(d4, unset.take(i as int)),
                decreases ue.unset_properties.len() - i,
            {
                // The type of a property to clear is not known here: it is added as Bool.
                let _ = builder.add_property(ue.unset_properties[i], DataType::Bool);
                proof {
                    assert(unset.take(i + 1).drop_last() =~= unset.take(i as int));
                    assert(unset.take(i + 1).last() == ue.unset_properties@[i as int]@);
                }
                i = i + 1;
            }
            proof {
                assert(unset.take(ue.unset_properties.len() as int) =~= unset);
            }
        },
        Op::DeleteEntity(de) => {
            let _ = builder.add_object(de.id);
        },
        Op::CreateRelation(cr) => {
            let _ = builder.add_relation_type(cr.relation_type);
            let _ = builder.add_object(cr.from);
            let _ = builder.add_object(cr.to);
        },
        Op::UpdateRelation(ur) => {
            let _ = builder.add_object(ur.id);
        },
        Op::DeleteRelation(dr) => {
            let _ = builder.add_object(dr.id);
        },
        Op::CreateProperty(cp) => {
            property_types.insert(cp.id, cp.data_type);
        },
    }
}

/// Collects all identifiers from an edit and builds the dictionaries.
#[verifier::rlimit(50)]
pub fn collect_edit_ids(edit: &Edit) -> (res: (DictionaryBuilder, TypeTable))
    ensures
        res.0@ == dictionaries_of(edit@.ops),
        res.1@ == types_of(edit@.ops),
        forall|i: int| 0 <= i < edit@.ops.len() ==> op_resolves(#[trigger] edit@.ops[i], res.0@),
{
    let ghost ops = ops_view(edit.ops@);
    let mut builder = DictionaryBuilder::new();
    let mut property_types = TypeTable::new();
    let mut i: usize = 0;
    proof {
        assert(ops.take(0) =~= Seq::<OpView>::empty());
    }
    while i < edit.ops.len()
        invariant
            i <= edit.ops.len(),
            ops == ops_view(edit.ops@),
            builder@ == dictionaries_of(ops.take(i as int)),
            property_types@ == types_of(ops.take(i as int)),
        decreases edit.ops.len() - i,
    {
        let op = &edit.ops[i];
        collect_op(op, &mut builder, &mut property_types);
        proof {
            assert(ops.take(i + 1).drop_last() =~= ops.take(i as int));
            assert(ops.take(i + 1).last() == op@);
        }
        i = i + 1;
    }
    proof {
        assert(ops.take(edit.ops.len() as int) =~= ops);
        lemma_dictionaries_resolve(ops);
    }
    (builder, property_types)
}

// ---------------------------------------------------------------------------
// What the encoder accepts
// ---------------------------------------------------------------------------

/// The first error among the operations from index `from` on.
pub open spec fn check_ops_from(ops: Seq<OpView>, from: int) -> Result<(), EncodeError>
    decreases ops.len() - from,
{
    if from < 0 || from >= ops.len() {
        Ok(())
    } else {
        match spec_check_op(ops[from]) {
            Err(e) => Err(e),
            Ok(_) => check_ops_from(ops, from + 1),
        }
    }
}

/// What the encoder checks of an edit: the first error among its operations.
pub open spec fn spec_check_edit(edit: EditView) -> Result<(), EncodeError> {
    check_ops_from(edit.ops, 0)
}

/// Checks an edit as the encoder does, without encoding it.
pub fn check_edit(edit: &Edit) -> (res: Result<(), EncodeError>)
    ensures
        res == spec_check_edit(edit@),
{
    let ghost ops = ops_view(edit.ops@);
    let mut i: usize = 0;
    while i < edit.ops.len()
        invariant
            i <= edit.ops.len(),
            ops == ops_view(edit.ops@),
            check_ops_from(ops, 0) == check_ops_from(ops, i as int),
        decreases edit.ops.len() - i,
    {
        check_op(&edit.ops[i])?;
        i = i + 1;
    }
    Ok(())
}

// ---------------------------------------------------------------------------
// Encoding
// ---------------------------------------------------------------------------

/// The encodings of the properties of the dictionaries: each identifier
/// followed by the code of its data type.
pub open spec fn property_parts(d: DictView) -> Seq<Seq<u8>> {
    Seq::new(d.property_ids.len(), |i: int| d.property_ids[i] + seq![d.property_types[i].spec_code()])
}

/// The encoding of the dictionaries: the properties behind their count, then
/// relation types, languages and objects as identifier vectors.
pub open spec fn dict_bytes(d: DictView) -> Seq<u8> {
    varint_bytes(d.property_ids.len()) + concat(property_parts(d)) + id_vec_bytes(d.relation_types)
        + id_vec_bytes(d.languages) + id_vec_bytes(d.objects)
}

/// The encodings of the operations.
pub open spec fn op_parts(ops: Seq<OpView>, d: DictView) -> Seq<Seq<u8>> {
    Seq::new(ops.len(), |i: int| op_bytes(ops[i], d))
}

/// The header of an edit: identifier, name, authors and creation time.
pub open spec fn header_bytes(edit: EditView) -> Seq<u8> {
    edit.id + string_bytes(edit.name) + id_vec_bytes(edit.authors) + signed_varint_bytes(edit.created_at)
}

/// The magic and the version that start an uncompressed edit: `GRC2`, 1.
pub open spec fn frame_start() -> Seq<u8> {
    seq![0x47u8, 0x52u8, 0x43u8, 0x32u8, 0x01u8]
}

/// The encoding of an edit.
pub open spec fn edit_bytes(edit: EditView) -> Seq<u8> {
    let d = dictionaries_of(edit.ops);
    frame_start() + header_bytes(edit) + dict_bytes(d) + varint_bytes(edit.ops.len()) + concat(
        op_parts(edit.ops, d),
    )
}

/// A capacity for the output buffer: a kilobyte and a hundred bytes for each
/// operation, and no more than the largest edit.
fn estimate_edit_size(edit: &Edit) -> (n: usize)
    ensures
        n == (if 1024 + edit.ops@.len() * 100 <= MAX_EDIT_SIZE {
            1024 + edit.ops@.len() * 100
        } else {
            MAX_EDIT_SIZE as nat
        }),
{
    let ops: usize = edit.ops.len();
    if ops > (MAX_EDIT_SIZE - 1024) / 100 {
        MAX_EDIT_SIZE
    } else {
        1024 + ops * 100
    }
}

/// Writes the dictionaries.
#[verifier::rlimit(50)]
fn put_dictionaries(writer: &mut Writer, dicts: &DictionaryBuilder)
    ensures
        final(writer)@ == old(writer)@ + dict_bytes(dicts@),
{
    let ghost d = dicts@;
    let ids = dicts.property_ids();
    let types = dicts.property_types();
    writer.write_varint(ids.len() as u64);
    let ghost start = writer@;
    let mut i: usize = 0;
    proof {
        assert(property_parts(d).take(0) =~= Seq::<Seq<u8>>::empty());
        assert(writer@ =~= start + concat(property_parts(d).take(0)));
    }
    while i < ids.len()
        invariant
            i <= ids.len(),
            ids_view(ids@) == d.property_ids,
            types@ == d.property_types,
            types@.len() == d.property_ids.len(),
            writer@ == start + concat(property_parts(d).take(i as int)),
        decreases ids.len() - i,
    {
        let ghost before = writer@;
        writer.write_id(&ids[i]);
        writer.write_byte(types[i].code());
        proof {
            let parts = property_parts(d);
            assert(d.property_ids[i as int] == ids@[i as int]@);
            assert(writer@ =~= before + parts[i as int]);
            assert(parts.take(i + 1) =~= parts.take(i as int).push(parts[i as int]));
            lemma_concat_push(parts.take(i as int), parts[i as int]);
            assert(writer@ =~= start + concat(parts.take(i + 1)));
        }
        i = i + 1;
    }
    proof {
        assert(property_parts(d).take(ids.len() as int) =~= property_parts(d));
    }
    writer.write_id_vec(dicts.relation_types());
    writer.write_id_vec(dicts.languages());
    writer.write_id_vec(dicts.objects());
    proof {
        assert(writer@ =~= old(writer)@ + dict_bytes(d));
    }
}

/// Writes the operations behind their count.
#[verifier::rlimit(50)]
fn put_ops(writer: &mut Writer, ops: &Vec<Op>, dicts: &DictionaryBuilder)
    requires
        forall|i: int| 0 <= i < ops@.len() ==> op_resolves(#[trigger] ops_view(ops@)[i], dicts@),
    ensures
        final(writer)@ == old(writer)@ + varint_bytes(ops@.len()) + concat(op_parts(ops_view(ops@), dicts@)),
{
    let ghost all = ops_view(ops@);
    let ghost d = dicts@;
    writer.write_varint(ops.len() as u64);
    let ghost start = writer@;
    let mut i: usize = 0;
    proof {
        assert(op_parts(all, d).take(0) =~= Seq::<Seq<u8>>::empty());
        assert(writer@ =~= start + concat(op_parts(all, d).take(0)));
    }
    while i < ops.len()
        invariant
            i <= ops.len(),
            all == ops_view(ops@),
            d == dicts@,
            forall|k: int| 0 <= k < all.len() ==> op_resolves(#[trigger] all[k], d),
            writer@ == start + concat(op_parts(all, d).take(i as int)),
        decreases ops.len() - i,
    {
        assert(op_resolves(all[i as int], d));
        put_op(writer, &ops[i], dicts);
        proof {
            let parts = op_parts(all, d);
            assert(parts.take(i + 1) =~= parts.take(i as int).push(parts[i as int]));
            lemma_concat_push(parts.take(i as int), parts[i as int]);
            assert(writer@ =~= start + concat(parts.take(i + 1)));
        }
        i = i + 1;
    }
    proof {
        assert(op_parts(all, d).take(ops.len() as int) =~= op_parts(all, d));
    }
}

/// Encodes an edit to the uncompressed binary format.
///
/// Fails with the first error among the operations, in their order. The
/// encoding of an edit depends on the edit alone: the dictionaries hold the
/// identifiers in the order in which the operations first name them.
#[verifier::rlimit(50)]
pub fn encode_edit(edit: &Edit) -> (res: Result<Vec<u8>, EncodeError>)
    ensures
        match spec_check_edit(edit@) {
            Ok(_) => res is Ok && res->Ok_0@ == edit_bytes(edit@),
            Err(e) => res == Err::<Vec<u8>, EncodeError>(e),
        },
        res is Ok ==> res->Ok_0@.len() >= 5 && res->Ok_0@.take(5) == frame_start(),
{
    check_edit(edit)?;
    let (dict_builder, _) = collect_edit_ids(edit);
    let mut writer = Writer::with_capacity(estimate_edit_size(edit));
    let magic: [u8; 4] = MAGIC_UNCOMPRESSED;
    writer.write_bytes(magic.as_slice());
    writer.write_byte(FORMAT_VERSION);
    proof {
        assert(writer@ =~= frame_start());
    }
    writer.write_id(&edit.id);
    writer.write_string(edit.name.as_str());
    writer.write_id_vec(&edit.authors);
    writer.write_signed_varint(edit.created_at);
    proof {
        assert(writer@ =~= frame_start() + header_bytes(edit@));
    }
    put_dictionaries(&mut writer, &dict_builder);
    put_ops(&mut writer, &edit.ops, &dict_builder);
    proof {
        assert(writer@ =~= edit_bytes(edit@));
        assert(edit_bytes(edit@).take(5) =~= frame_start());
    }
    Ok(writer.into_bytes())
}


// ---------------------------------------------------------------------------
// Compression
// ---------------------------------------------------------------------------

/// The data that a zstd stream decompresses to, or `None` where the bytes
/// are no zstd stream. It depends on the bytes alone.
pub uninterp spec fn zstd_decoded(stream: Seq<u8>) -> Option<Seq<u8>>;

/// The error type of the zstd calls.
#[verifier::external_type_specification]
#[verifier::external_body]
pub struct ExIoError(std::io::Error);

/// Calls `zstd::decode_all`.
///
/// Trusted: the call succeeds exactly on the streams that zstd can
/// decompress, and yields the decompressed data.
#[verifier::external_body]
fn zstd_decompress(stream: &[u8]) -> (res: Result<Vec<u8>, std::io::Error>)
    ensures
        match res {
            Ok(data) => zstd_decoded(stream@) == Some(data@),
            Err(_) => zstd_decoded(stream@) is None,
        },
{
    zstd::decode_all(stream)
}

/// Calls `zstd::encode_all`.
///
/// Trusted: zstd compresses without loss, so where the call succeeds its
/// result is a stream that `zstd::decode_all` decompresses to `data`; the
/// crate's own full-cycle tests hold it to that. Nothing is claimed of when
/// the call succeeds, nor of the bytes of the stream.
#[verifier::external_body]
fn zstd_compress(data: &[u8], level: i32) -> (res: Result<Vec<u8>, std::io::Error>)
    ensures
        res is Ok ==> zstd_decoded(res->Ok_0@) == Some(data@),
{
    zstd::encode_all(data, level)
}

/// Calls `to_string` on an error of the zstd calls. Trusted; nothing is
/// claimed of the message.
#[verifier::external_body]
fn io_error_message(e: &std::io::Error) -> (msg: String) {
    e.to_string()
}

/// The magic that starts a compressed edit: `GRC2Z`.
pub open spec fn compressed_start() -> Seq<u8> {
    seq![0x47u8, 0x52u8, 0x43u8, 0x32u8, 0x5Au8]
}

/// A compressed edit: the magic, the length of the uncompressed edit, and
/// the zstd stream.
pub open spec fn compressed_bytes(uncompressed_len: nat, stream: Seq<u8>) -> Seq<u8> {
    compressed_start() + varint_bytes(uncompressed_len) + stream
}

/// Frames a zstd stream as a compressed edit: the magic `GRC2Z`, the length
/// of the uncompressed edit as a varint, and the stream.
pub fn frame_compressed(uncompressed_len: usize, stream: &[u8]) -> (out: Vec<u8>)
    ensures
        out@ == compressed_bytes(uncompressed_len as nat, stream@),
{
    let mut writer = Writer::new();
    let magic: [u8; 5] = MAGIC_COMPRESSED;
    writer.write_bytes(magic.as_slice());
    proof {
        assert(writer@ =~= compressed_start());
    }
    writer.write_varint(uncompressed_len as u64);
    writer.write_bytes(stream);
    writer.into_bytes()
}

/// Encodes an edit to the binary format with zstd compression at `level`.
///
/// Fails with the first error among the operations, as `encode_edit` does.
/// Past that check the compressor decides: where it fails the result is
/// `CompressionFailed`; where it succeeds the result is the compressed frame
/// of a stream that decompresses to the uncompressed encoding of the edit.
#[verifier::rlimit(50)]
pub fn encode_edit_compressed(edit: &Edit, level: i32) -> (res: Result<Vec<u8>, EncodeError>)
    ensures
        match spec_check_edit(edit@) {
            Err(e) => res == Err::<Vec<u8>, EncodeError>(e),
            Ok(_) => match res {
                Err(e) => e is CompressionFailed,
                Ok(out) => exists|stream: Seq<u8>|
                    out@ == compressed_bytes(edit_bytes(edit@).len(), stream) && #[trigger] zstd_decoded(
                        stream,
                    ) == Some(edit_bytes(edit@)),
            },
        },
        res is Ok ==> res->Ok_0@.len() >= 5 && res->Ok_0@.take(5) == compressed_start(),
{
    let uncompressed = encode_edit(edit)?;
    match zstd_compress(uncompressed.as_slice(), level) {
        Err(e) => Err(EncodeError::CompressionFailed { msg: io_error_message(&e) }),
        Ok(stream) => {
            let out = frame_compressed(uncompressed.len(), stream.as_slice());
            proof {
                assert(zstd_decoded(stream@) == Some(edit_bytes(edit@)));
                assert(out@.take(5) =~= compressed_start());
            }
            Ok(out)
        },
    }
}

/// What the decoder makes of the outcome of decompression: the data where it
/// has the declared length.
pub open spec fn spec_checked_decompressed(declared: u64, outcome: Option<Seq<u8>>) -> Result<
    Seq<u8>,
    DecodeError,
> {
    match outcome {
        None => Err(DecodeError::DecompressionFailed { msg: arbitrary() }),
        Some(data) => if data.len() != declared {
            Err(DecodeError::UncompressedSizeMismatch { declared, actual: data.len() as u64 })
        } else {
            Ok(data)
        },
    }
}

/// The uncompressed edit behind a compressed magic: the declared length,
/// which must be within the edit size limit, and a zstd stream of data of
/// exactly that length.
pub open spec fn spec_decompress(s: Seq<u8>) -> Result<Seq<u8>, DecodeError> {
    match spec_read_varint(s, "uncompressed_size") {
        Err(e) => Err(e),
        Ok((declared, stream)) => if declared > MAX_EDIT_SIZE {
            Err(
                DecodeError::LengthExceedsLimit {
                    field: "uncompressed_size",
                    len: declared,
                    max: MAX_EDIT_SIZE as u64,
                },
            )
        } else {
            spec_checked_decompressed(declared, zstd_decoded(stream))
        },
    }
}

/// `actual` is the error `expected`; of a failed decompression only the
/// kind is compared, not the message.
pub open spec fn same_error(actual: DecodeError, expected: DecodeError) -> bool {
    if expected is DecompressionFailed {
        actual is DecompressionFailed
    } else {
        actual == expected
    }
}

/// Checks the outcome of decompression against the declared length: a
/// failure becomes `DecompressionFailed` with its message, data of another
/// length becomes `UncompressedSizeMismatch`.
pub fn checked_decompressed(declared: u64, outcome: Result<Vec<u8>, String>) -> (res: Result<
    Vec<u8>,
    DecodeError,
>)
    ensures
        match outcome {
            Err(msg) => res == Err::<Vec<u8>, DecodeError>(DecodeError::DecompressionFailed { msg }),
            Ok(data) => if data@.len() != declared {
                res == Err::<Vec<u8>, DecodeError>(
                    DecodeError::UncompressedSizeMismatch { declared, actual: data@.len() as u64 },
                )
            } else {
                res == Ok::<Vec<u8>, DecodeError>(data)
            },
        },
{
    match outcome {
        Err(msg) => Err(DecodeError::DecompressionFailed { msg }),
        Ok(data) => {
            let actual: u64 = data.len() as u64;
            if actual != declared {
                Err(DecodeError::UncompressedSizeMismatch { declared, actual })
            } else {
                Ok(data)
            }
        },
    }
}

/// Decompresses what follows a compressed magic: reads the declared length,
/// refuses one above the edit size limit before any decompression, and
/// checks the decompressed data against it.
#[verifier::rlimit(50)]
pub fn decompress_zstd(compressed: &[u8]) -> (res: Result<Vec<u8>, DecodeError>)
    ensures
        match spec_decompress(compressed@) {
            Ok(data) => res is Ok && res->Ok_0@ == data,
            Err(e) => res is Err && same_error(res->Err_0, e),
        },
{
    let mut reader = Reader::new(compressed);
    let declared: u64 = reader.read_varint("uncompressed_size")?;
    if declared > MAX_EDIT_SIZE as u64 {
        return Err(
            DecodeError::LengthExceedsLimit {
                field: "uncompressed_size",
                len: declared,
                max: MAX_EDIT_SIZE as u64,
            },
        );
    }
    let outcome: Result<Vec<u8>, String> = match zstd_decompress(reader.remaining()) {
        Ok(data) => Ok(data),
        Err(e) => Err(io_error_message(&e)),
    };
    checked_decompressed(declared, outcome)
}


// ---------------------------------------------------------------------------
// Grammar
// ---------------------------------------------------------------------------

/// The view of an edit's header as the decoder reads it.
pub struct HeaderView {
    pub id: Seq<u8>,
    pub name: Seq<char>,
    pub authors: Seq<Seq<u8>>,
    pub created_at: i64,
}

/// The header of an edit: identifier, name, at most 1 000 authors, and the
/// creation time.
pub open spec fn spec_read_header(s: Seq<u8>) -> Parsed<HeaderView> {
    match spec_read_id(s, "edit_id") {
        Err(e) => Err(e),
        Ok((id, rest)) => match spec_read_string(rest, MAX_STRING_LEN as nat, "name") {
            Err(e) => Err(e),
            Ok((name, rest2)) => match spec_read_id_vec(rest2, MAX_AUTHORS as nat, "authors") {
                Err(e) => Err(e),
                Ok((authors, rest3)) => match spec_read_signed_varint(rest3, "created_at") {
                    Err(e) => Err(e),
                    Ok((created_at, rest4)) => Ok((HeaderView { id, name, authors, created_at }, rest4)),
                },
            },
        },
    }
}

/// One property of the dictionaries: an identifier and a data type code.
pub open spec fn spec_read_property(s: Seq<u8>) -> Parsed<(Seq<u8>, DataType)> {
    match spec_read_id(s, "property_id") {
        Err(e) => Err(e),
        Ok((id, rest)) => match spec_read_byte(rest, "data_type") {
            Err(e) => Err(e),
            Ok((code, rest2)) => match DataType::spec_from_u8(code) {
                None => Err(DecodeError::InvalidDataType { data_type: code }),
                Some(data_type) => Ok(((id, data_type), rest2)),
            },
        },
    }
}

/// `count` properties in a row, behind those in `acc`.
pub open spec fn spec_read_properties_from(s: Seq<u8>, count: nat, acc: Seq<(Seq<u8>, DataType)>) -> Parsed<
    Seq<(Seq<u8>, DataType)>,
>
    decreases count,
{
    if count == 0 {
        Ok((acc, s))
    } else {
        match spec_read_property(s) {
            Err(e) => Err(e),
            Ok((p, rest)) => spec_read_properties_from(rest, (count - 1) as nat, acc.push(p)),
        }
    }
}

/// The dictionaries that hold the given lists.
pub open spec fn dict_of(
    properties: Seq<(Seq<u8>, DataType)>,
    relation_types: Seq<Seq<u8>>,
    languages: Seq<Seq<u8>>,
    objects: Seq<Seq<u8>>,
) -> DictView {
    DictView {
        property_ids: Seq::new(properties.len(), |i: int| properties[i].0),
        property_types: Seq::new(properties.len(), |i: int| properties[i].1),
        relation_types,
        languages,
        objects,
    }
}

/// The dictionaries: at most a million properties behind their count, then
/// relation types, languages and objects, each at most a million.
pub open spec fn spec_read_dictionaries(s: Seq<u8>) -> Parsed<DictView> {
    match spec_read_varint(s, "property_count") {
        Err(e) => Err(e),
        Ok((count, rest)) => if count > MAX_DICT_SIZE {
            Err(DecodeError::LengthExceedsLimit { field: "properties", len: count, max: MAX_DICT_SIZE as u64 })
        } else {
            match spec_read_properties_from(rest, count as nat, Seq::empty()) {
                Err(e) => Err(e),
                Ok((properties, rest2)) => match spec_read_id_vec(rest2, MAX_DICT_SIZE as nat, "relation_types") {
                    Err(e) => Err(e),
                    Ok((relation_types, rest3)) => match spec_read_id_vec(
                        rest3,
                        MAX_DICT_SIZE as nat,
                        "languages",
                    ) {
                        Err(e) => Err(e),
                        Ok((languages, rest4)) => match spec_read_id_vec(rest4, MAX_DICT_SIZE as nat, "objects") {
                            Err(e) => Err(e),
                            Ok((objects, rest5)) => Ok(
                                (dict_of(properties, relation_types, languages, objects), rest5),
                            ),
                        },
                    },
                },
            }
        },
    }
}

/// `count` operations in a row, behind those in `acc`.
pub open spec fn spec_read_ops_from(s: Seq<u8>, count: nat, acc: Seq<OpView>, d: DictView) -> Parsed<
    Seq<OpView>,
>
    decreases count,
{
    if count == 0 {
        Ok((acc, s))
    } else {
        match spec_read_op(s, d) {
            Err(e) => Err(e),
            Ok((op, rest)) => spec_read_ops_from(rest, (count - 1) as nat, acc.push(op), d),
        }
    }
}

/// At most a million operations behind their count.
pub open spec fn spec_read_ops(s: Seq<u8>, d: DictView) -> Parsed<Seq<OpView>> {
    match spec_read_varint(s, "op_count") {
        Err(e) => Err(e),
        Ok((count, rest)) => if count > MAX_OPS_PER_EDIT {
            Err(DecodeError::LengthExceedsLimit { field: "ops", len: count, max: MAX_OPS_PER_EDIT as u64 })
        } else {
            spec_read_ops_from(rest, count as nat, Seq::empty(), d)
        },
    }
}

/// An uncompressed edit whose magic has been recognised: four bytes of
/// magic, the version, which must be 1, the header, the dictionaries and the
/// operations. What follows the operations is not read.
pub open spec fn spec_read_frame(s: Seq<u8>) -> Result<EditView, DecodeError> {
    match spec_read_bytes(s, 4, "magic") {
        Err(e) => Err(e),
        Ok((_, rest)) => match spec_read_byte(rest, "version") {
            Err(e) => Err(e),
            Ok((version, rest2)) => if version != FORMAT_VERSION {
                Err(DecodeError::UnsupportedVersion { version })
            } else {
                match spec_read_header(rest2) {
                    Err(e) => Err(e),
                    Ok((header, rest3)) => match spec_read_dictionaries(rest3) {
                        Err(e) => Err(e),
                        Ok((d, rest4)) => match spec_read_ops(rest4, d) {
                            Err(e) => Err(e),
                            Ok((ops, _)) => Ok(
                                EditView {
                                    id: header.id,
                                    name: header.name,
                                    authors: header.authors,
                                    created_at: header.created_at,
                                    ops,
                                },
                            ),
                        },
                    },
                }
            },
        },
    }
}

/// The input starts with the magic of a compressed edit.
pub open spec fn is_compressed(input: Seq<u8>) -> bool {
    input.len() >= 5 && input.take(5) == compressed_start()
}

/// The input starts with the magic of an uncompressed edit.
pub open spec fn is_uncompressed(input: Seq<u8>) -> bool {
    input.len() >= 4 && input.take(4) == frame_start().take(4)
}

/// The edit that a byte sequence encodes, or the error that the decoder
/// reports, where the input starts with a known magic.
pub open spec fn spec_decode_known(input: Seq<u8>) -> Result<EditView, DecodeError> {
    if is_compressed(input) {
        match spec_decompress(input.skip(5)) {
            Err(e) => Err(e),
            Ok(data) => spec_read_frame(data),
        }
    } else if input.len() > MAX_EDIT_SIZE {
        Err(DecodeError::LengthExceedsLimit { field: "edit", len: input.len() as u64, max: MAX_EDIT_SIZE as u64 })
    } else {
        spec_read_frame(input)
    }
}

/// `res` is what the decoder yields for `input`.
///
/// An input of fewer than four bytes ends inside the magic. An input that
/// starts with neither magic is refused with its first four bytes. Any
/// other input is decoded as `spec_decode_known` says.
pub open spec fn decodes_to(input: Seq<u8>, res: Result<EditView, DecodeError>) -> bool {
    if input.len() < 4 {
        res == Err::<EditView, DecodeError>(DecodeError::UnexpectedEof { context: "magic" })
    } else if !is_compressed(input) && !is_uncompressed(input) {
        res is Err && res->Err_0 is InvalidMagic && res->Err_0->found@ == input.take(4)
    } else {
        match spec_decode_known(input) {
            Ok(edit) => res == Ok::<EditView, DecodeError>(edit),
            Err(e) => res is Err && same_error(res->Err_0, e),
        }
    }
}

// ---------------------------------------------------------------------------
// Decoding
// ---------------------------------------------------------------------------

/// The view of a decoding result.
pub open spec fn edit_result_view(res: Result<Edit, DecodeError>) -> Result<EditView, DecodeError> {
    match res {
        Ok(edit) => Ok(edit@),
        Err(e) => Err(e),
    }
}

#[verifier::rlimit(50)]
fn decode_properties(reader: &mut Reader) -> (res: Result<Vec<(Id, DataType)>, DecodeError>)
    ensures
        match spec_read_varint(old(reader)@, "property_count") {
            Err(e) => res == Err::<Vec<(Id, DataType)>, DecodeError>(e),
            Ok((count, rest)) => if count > MAX_DICT_SIZE {
                res == Err::<Vec<(Id, DataType)>, DecodeError>(
                    DecodeError::LengthExceedsLimit {
                        field: "properties",
                        len: count,
                        max: MAX_DICT_SIZE as u64,
                    },
                )
            } else {
                match spec_read_properties_from(rest, count as nat, Seq::empty()) {
                    Err(e) => res == Err::<Vec<(Id, DataType)>, DecodeError>(e),
                    Ok((properties, tail)) => res is Ok && properties_view(res->Ok_0@) == properties
                        && final(reader)@ == tail,
                }
            },
        },
{
    let count: u64 = reader.read_varint("property_count")?;
    if count > MAX_DICT_SIZE as u64 {
        return Err(DecodeError::LengthExceedsLimit { field: "properties", len: count, max: MAX_DICT_SIZE as u64 });
    }
    let n: usize = count as usize;
    let ghost start = reader@;
    let mut properties: Vec<(Id, DataType)> = Vec::new();
    let mut i: usize = 0;
    proof {
        assert(properties_view(properties@) =~= Seq::<(Seq<u8>, DataType)>::empty());
    }
    while i < n
        invariant
            i <= n,
            n == count,
            count <= MAX_DICT_SIZE,
            spec_read_varint(old(reader)@, "property_count") == Ok::<(u64, Seq<u8>), DecodeError>((count, start)),
            spec_read_properties_from(start, n as nat, Seq::empty()) == spec_read_properties_from(
                reader@,
                (n - i) as nat,
                properties_view(properties@),
            ),
        decreases n - i,
    {
        let ghost before = properties_view(properties@);
        let id: Id = reader.read_id("property_id")?;
        let code: u8 = reader.read_byte("data_type")?;
        let data_type = match DataType::from_u8(code) {
            Some(t) => t,
            None => {
                return Err(DecodeError::InvalidDataType { data_type: code });
            },
        };
        properties.push((id, data_type));
        proof {
            assert(properties_view(properties@) =~= before.push((id@, data_type)));
        }
        i = i + 1;
    }
    Ok(properties)
}

/// The views of a list of properties.
pub open spec fn properties_view(properties: Seq<(Id, DataType)>) -> Seq<(Seq<u8>, DataType)> {
    Seq::new(properties.len(), |i: int| (properties[i].0@, properties[i].1))
}

#[verifier::rlimit(50)]
fn decode_dictionaries(reader: &mut Reader) -> (res: Result<WireDictionaries, DecodeError>)
    ensures
        crate::codec::primitives::parsed_view(res, final(reader)@, spec_read_dictionaries(old(reader)@)),
{
    let properties = decode_properties(reader)?;
    let relation_types = reader.read_id_vec(MAX_DICT_SIZE, "relation_types")?;
    let languages = reader.read_id_vec(MAX_DICT_SIZE, "languages")?;
    let objects = reader.read_id_vec(MAX_DICT_SIZE, "objects")?;
    let dicts = WireDictionaries { properties, relation_types, languages, objects };
    proof {
        let pv = properties_view(properties@);
        let d = dict_of(pv, ids_view(relation_types@), ids_view(languages@), ids_view(objects@));
        assert(dicts@.property_ids =~= d.property_ids);
        assert(dicts@.property_types =~= d.property_types);
    }
    Ok(dicts)
}

#[verifier::rlimit(50)]
fn decode_ops(reader: &mut Reader, dicts: &WireDictionaries) -> (res: Result<Vec<Op>, DecodeError>)
    ensures
        match spec_read_ops(old(reader)@, dicts@) {
            Ok((ops, tail)) => res is Ok && ops_view(res->Ok_0@) == ops && final(reader)@ == tail,
            Err(e) => res == Err::<Vec<Op>, DecodeError>(e),
        },
{
    let count: u64 = reader.read_varint("op_count")?;
    if count > MAX_OPS_PER_EDIT as u64 {
        return Err(DecodeError::LengthExceedsLimit { field: "ops", len: count, max: MAX_OPS_PER_EDIT as u64 });
    }
    let n: usize = count as usize;
    let ghost start = reader@;
    let ghost d = dicts@;
    let mut ops: Vec<Op> = Vec::new();
    let mut i: usize = 0;
    proof {
        assert(ops_view(ops@) =~= Seq::<OpView>::empty());
    }
    while i < n
        invariant
            i <= n,
            n == count,
            count <= MAX_OPS_PER_EDIT,
            d == dicts@,
            spec_read_varint(old(reader)@, "op_count") == Ok::<(u64, Seq<u8>), DecodeError>((count, start)),
            spec_read_ops_from(start, n as nat, Seq::empty(), d) == spec_read_ops_from(
                reader@,
                (n - i) as nat,
                ops_view(ops@),
                d,
            ),
        decreases n - i,
    {
        let ghost before = ops_view(ops@);
        let op = decode_op(reader, dicts)?;
        let ghost opv = op@;
        ops.push(op);
        proof {
            assert(ops_view(ops@) =~= before.push(opv));
        }
        i = i + 1;
    }
    Ok(ops)
}

/// Decodes an uncompressed edit whose magic has been recognised.
#[verifier::rlimit(50)]
pub fn decode_frame(data: &[u8]) -> (res: Result<Edit, DecodeError>)
    ensures
        edit_result_view(res) == spec_read_frame(data@),
{
    let mut reader = Reader::new(data);
    let _ = reader.read_bytes(4, "magic")?;
    let version: u8 = reader.read_byte("version")?;
    if version != FORMAT_VERSION {
        return Err(DecodeError::UnsupportedVersion { version });
    }
    let edit_id: Id = reader.read_id("edit_id")?;
    let name = reader.read_string(MAX_STRING_LEN, "name")?;
    let authors = reader.read_id_vec(MAX_AUTHORS, "authors")?;
    let created_at: i64 = reader.read_signed_varint("created_at")?;
    let dicts = decode_dictionaries(&mut reader)?;
    let ops = decode_ops(&mut reader, &dicts)?;
    Ok(Edit { id: edit_id, name, authors, created_at, ops })
}

/// Tells whether `input` starts with the `n` bytes of `magic`.
fn starts_with(input: &[u8], magic: &[u8]) -> (res: bool)
    ensures
        res == (input@.len() >= magic@.len() && input@.take(magic@.len() as int) == magic@),
{
    if input.len() < magic.len() {
        return false;
    }
    let mut i: usize = 0;
    while i < magic.len()
        invariant
            i <= magic@.len(),
            magic@.len() <= input@.len(),
            forall|j: int| 0 <= j < i ==> input@[j] == magic@[j],
        decreases magic.len() - i,
    {
        if input[i] != magic[i] {
            proof {
                assert(input@.take(magic@.len() as int)[i as int] != magic@[i as int]);
            }
            return false;
        }
        i = i + 1;
    }
    proof {
        assert(input@.take(magic@.len() as int) =~= magic@);
    }
    true
}

/// Decodes an edit from binary data.
///
/// A compressed edit is recognised by its magic and decompressed first; its
/// declared length is checked against the edit size limit before any
/// decompression, and the decompressed data against the declared length.
#[verifier::rlimit(50)]
pub fn decode_edit(input: &[u8]) -> (res: Result<Edit, DecodeError>)
    ensures
        decodes_to(input@, edit_result_view(res)),
{
    if input.len() < 4 {
        return Err(DecodeError::UnexpectedEof { context: "magic" });
    }
    let compressed_magic: [u8; 5] = MAGIC_COMPRESSED;
    let magic: [u8; 4] = MAGIC_UNCOMPRESSED;
    proof {
        assert(compressed_magic@ =~= compressed_start());
        assert(magic@ =~= frame_start().take(4));
    }
    if starts_with(input, compressed_magic.as_slice()) {
        let rest = vstd::slice::slice_subrange(input, 5, input.len());
        let decompressed = decompress_zstd(rest)?;
        decode_frame(decompressed.as_slice())
    } else if starts_with(input, magic.as_slice()) {
        if input.len() > MAX_EDIT_SIZE {
            return Err(
                DecodeError::LengthExceedsLimit {
                    field: "edit",
                    len: input.len() as u64,
                    max: MAX_EDIT_SIZE as u64,
                },
            );
        }
        decode_frame(input)
    } else {
        let found: [u8; 4] = [input[0], input[1], input[2], input[3]];
        proof {
            assert(found@ =~= input@.take(4));
        }
        Err(DecodeError::InvalidMagic { found })
    }
}


// ---------------------------------------------------------------------------
// Laws
// ---------------------------------------------------------------------------

/// The operations that decoding yields for encoded ones.
pub open spec fn canonical_ops(ops: Seq<OpView>) -> Seq<OpView> {
    Seq::new(ops.len(), |i: int| crate::codec::op::canonical_op(ops[i]))
}

/// The edit that decoding yields for an encoded one: the edit itself, with
/// every binary64 negative zero replaced by positive zero.
pub open spec fn canonical_edit(edit: EditView) -> EditView {
    EditView { ops: canonical_ops(edit.ops), ..edit }
}

/// Every list of the dictionaries has at most a million entries.
pub open spec fn dict_within_limits(d: DictView) -> bool {
    &&& d.property_ids.len() <= MAX_DICT_SIZE
    &&& d.relation_types.len() <= MAX_DICT_SIZE
    &&& d.languages.len() <= MAX_DICT_SIZE
    &&& d.objects.len() <= MAX_DICT_SIZE
}

/// The dictionaries of an edit hold each property under the data type of
/// each of its values.
///
/// A property stands in the dictionaries under one type: the type declared
/// for it before it is first seen, else the type of the value it is first
/// seen with, else `Bool` where it is first seen in a list of properties to
/// clear. Values of another type cannot be decoded again.
pub open spec fn types_consistent(edit: EditView) -> bool {
    forall|i: int|
        0 <= i < edit.ops.len() ==> crate::codec::op::op_typed(#[trigger] edit.ops[i], dictionaries_of(edit.ops))
}

/// An edit is valid: it is one that the codec is made for.
///
/// Its identifiers have sixteen bytes; its name, its authors, its
/// operations, their lists and their values are within the limits that the
/// decoder enforces, and so are its dictionaries and its encoding; the
/// encoder accepts it; and the types of its values are consistent.
pub open spec fn edit_valid(edit: EditView) -> bool {
    &&& edit.id.len() == 16
    &&& encode_utf8(edit.name).len() <= MAX_STRING_LEN
    &&& edit.authors.len() <= MAX_AUTHORS
    &&& crate::codec::primitives::ids_well_formed(edit.authors)
    &&& edit.ops.len() <= MAX_OPS_PER_EDIT
    &&& forall|i: int| 0 <= i < edit.ops.len() ==> crate::codec::op::op_well_formed(#[trigger] edit.ops[i])
    &&& spec_check_edit(edit) is Ok
    &&& types_consistent(edit)
    &&& dict_within_limits(dictionaries_of(edit.ops))
    &&& edit_bytes(edit).len() <= MAX_EDIT_SIZE
}

/// Tells whether an edit is valid: whether it is one that makes the round
/// trip through the codec.
#[verifier::rlimit(50)]
pub fn is_valid_edit(edit: &Edit) -> (res: bool)
    ensures
        res == edit_valid(edit@),
{
    let ghost ops = ops_view(edit.ops@);
    proof {
        assert(crate::codec::primitives::ids_well_formed(ids_view(edit.authors@)));
    }
    if edit.name.as_str().as_bytes().len() > MAX_STRING_LEN || edit.authors.len() > MAX_AUTHORS
        || edit.ops.len() > MAX_OPS_PER_EDIT {
        return false;
    }
    let mut i: usize = 0;
    while i < edit.ops.len()
        invariant
            i <= edit.ops.len(),
            ops == ops_view(edit.ops@),
            forall|j: int| 0 <= j < i ==> crate::codec::op::op_well_formed(#[trigger] ops[j]),
        decreases edit.ops.len() - i,
    {
        if !crate::codec::op::is_op_well_formed(&edit.ops[i]) {
            assert(!crate::codec::op::op_well_formed(ops[i as int]));
            return false;
        }
        assert(crate::codec::op::op_well_formed(ops[i as int]));
        i = i + 1;
    }
    let encoded = match encode_edit(edit) {
        Ok(bytes) => bytes,
        Err(_) => {
            return false;
        },
    };
    if encoded.len() > MAX_EDIT_SIZE {
        return false;
    }
    let (dicts, _) = collect_edit_ids(edit);
    if dicts.property_ids().len() > MAX_DICT_SIZE || dicts.relation_types().len() > MAX_DICT_SIZE
        || dicts.languages().len() > MAX_DICT_SIZE || dicts.objects().len() > MAX_DICT_SIZE {
        return false;
    }
    let mut k: usize = 0;
    while k < edit.ops.len()
        invariant
            k <= edit.ops.len(),
            ops == ops_view(edit.ops@),
            dicts@ == dictionaries_of(ops),
            forall|j: int| 0 <= j < ops.len() ==> op_resolves(#[trigger] ops[j], dicts@),
            forall|j: int| 0 <= j < k ==> crate::codec::op::op_typed(#[trigger] ops[j], dicts@),
        decreases edit.ops.len() - k,
    {
        assert(op_resolves(ops[k as int], dicts@));
        if !crate::codec::op::is_op_typed(&edit.ops[k], &dicts) {
            assert(!crate::codec::op::op_typed(ops[k as int], dicts@));
            return false;
        }
        assert(crate::codec::op::op_typed(ops[k as int], dicts@));
        k = k + 1;
    }
    true
}

/// Where the encoder accepts the operations from index `from` on, it
/// accepts each of them.
pub proof fn lemma_check_ops_each(ops: Seq<OpView>, from: int)
    requires
        0 <= from,
        check_ops_from(ops, from) is Ok,
    ensures
        forall|i: int| from <= i < ops.len() ==> spec_check_op(#[trigger] ops[i]) is Ok,
    decreases ops.len() - from,
{
    if from < ops.len() {
        lemma_check_ops_each(ops, from + 1);
    }
}

/// The dictionaries of well-formed operations are well shaped: every
/// property has a type, and every identifier has sixteen bytes.
#[verifier::rlimit(50)]
pub proof fn lemma_dictionaries_shaped(ops: Seq<OpView>)
    requires
        forall|i: int| 0 <= i < ops.len() ==> crate::codec::op::op_well_formed(#[trigger] ops[i]),
    ensures
        crate::codec::op::dict_shaped(dictionaries_of(ops)),
    decreases ops.len(),
{
    if ops.len() > 0 {
        let init = ops.drop_last();
        assert forall|i: int| 0 <= i < init.len() implies crate::codec::op::op_well_formed(#[trigger] init[i]) by {
            assert(init[i] == ops[i]);
        }
        lemma_dictionaries_shaped(init);
        assert(crate::codec::op::op_well_formed(ops[ops.len() - 1]));
        crate::codec::op::lemma_intern_op_shaped(dictionaries_of(init), ops.last(), types_of(init));
    }
}

/// Each operation of a valid edit can make the round trip through the
/// dictionaries of the edit.
#[verifier::rlimit(50)]
pub proof fn lemma_valid_edit_ops(edit: EditView)
    requires
        edit_valid(edit),
    ensures
        crate::codec::op::dict_shaped(dictionaries_of(edit.ops)),
        forall|i: int|
            0 <= i < edit.ops.len() ==> crate::codec::op::op_valid(
                #[trigger] edit.ops[i],
                dictionaries_of(edit.ops),
            ),
{
    let d = dictionaries_of(edit.ops);
    lemma_dictionaries_shaped(edit.ops);
    lemma_dictionaries_resolve(edit.ops);
    lemma_check_ops_each(edit.ops, 0);
    assert forall|i: int| 0 <= i < edit.ops.len() implies crate::codec::op::op_valid(#[trigger] edit.ops[i], d) by {
        assert(crate::codec::op::op_well_formed(edit.ops[i]));
        assert(crate::codec::op::op_typed(edit.ops[i], d));
        crate::codec::op::lemma_op_valid(edit.ops[i], d);
    }
}

/// Decoding an encoded header gives it back.
#[verifier::rlimit(50)]
pub proof fn lemma_header_roundtrip(edit: EditView, rest: Seq<u8>)
    requires
        edit.id.len() == 16,
        encode_utf8(edit.name).len() <= MAX_STRING_LEN,
        edit.authors.len() <= MAX_AUTHORS,
        crate::codec::primitives::ids_well_formed(edit.authors),
    ensures
        spec_read_header(header_bytes(edit) + rest) == Ok::<(HeaderView, Seq<u8>), DecodeError>(
            (
                HeaderView { id: edit.id, name: edit.name, authors: edit.authors, created_at: edit.created_at },
                rest,
            ),
        ),
{
    let b3 = signed_varint_bytes(edit.created_at) + rest;
    let b2 = id_vec_bytes(edit.authors) + b3;
    let b1 = string_bytes(edit.name) + b2;
    crate::codec::op::lemma_concat_assoc(
        edit.id + string_bytes(edit.name) + id_vec_bytes(edit.authors),
        signed_varint_bytes(edit.created_at),
        rest,
    );
    crate::codec::op::lemma_concat_assoc(edit.id + string_bytes(edit.name), id_vec_bytes(edit.authors), b3);
    crate::codec::op::lemma_concat_assoc(edit.id, string_bytes(edit.name), b2);
    assert(header_bytes(edit) + rest == edit.id + b1);
    crate::codec::primitives::lemma_bytes_roundtrip(edit.id, b1, "edit_id");
    crate::codec::primitives::lemma_string_roundtrip(edit.name, MAX_STRING_LEN as nat, b2, "name");
    crate::codec::primitives::lemma_id_vec_roundtrip(edit.authors, MAX_AUTHORS as nat, b3, "authors");
    crate::codec::primitives::lemma_signed_varint_roundtrip(edit.created_at, rest, "created_at");
}

/// The properties of dictionaries as pairs.
pub open spec fn property_pairs(ids: Seq<Seq<u8>>, types: Seq<DataType>) -> Seq<(Seq<u8>, DataType)> {
    Seq::new(ids.len(), |i: int| (ids[i], types[i]))
}

/// The encodings of properties given as two lists.
pub open spec fn pair_parts(ids: Seq<Seq<u8>>, types: Seq<DataType>) -> Seq<Seq<u8>> {
    Seq::new(ids.len(), |i: int| ids[i] + seq![types[i].spec_code()])
}

/// Decoding the encodings of a list of properties gives the list back,
/// behind what was read before.
#[verifier::rlimit(50)]
pub proof fn lemma_properties_roundtrip_from(
    ids: Seq<Seq<u8>>,
    types: Seq<DataType>,
    acc: Seq<(Seq<u8>, DataType)>,
    rest: Seq<u8>,
)
    requires
        ids.len() == types.len(),
        crate::codec::primitives::ids_well_formed(ids),
    ensures
        spec_read_properties_from(concat(pair_parts(ids, types)) + rest, ids.len(), acc) == Ok::<
            (Seq<(Seq<u8>, DataType)>, Seq<u8>),
            DecodeError,
        >((acc + property_pairs(ids, types), rest)),
    decreases ids.len(),
{
    if ids.len() == 0 {
        assert(concat(pair_parts(ids, types)) + rest =~= rest);
        assert(acc + property_pairs(ids, types) =~= acc);
    } else {
        let parts = pair_parts(ids, types);
        let ids_tail = ids.drop_first();
        let types_tail = types.drop_first();
        crate::codec::primitives::lemma_concat_first(parts);
        assert(parts.drop_first() =~= pair_parts(ids_tail, types_tail));
        let after = concat(pair_parts(ids_tail, types_tail)) + rest;
        let code = types[0].spec_code();
        assert(concat(parts) + rest =~= ids[0] + (seq![code] + after));
        assert(ids[0].len() == 16);
        crate::codec::primitives::lemma_bytes_roundtrip(ids[0], seq![code] + after, "property_id");
        crate::codec::value::lemma_byte_roundtrip(code, after, "data_type");
        assert forall|k: int| 0 <= k < ids_tail.len() implies (#[trigger] ids_tail[k]).len() == 16 by {
            assert(ids_tail[k] == ids[k + 1]);
        }
        lemma_properties_roundtrip_from(ids_tail, types_tail, acc.push((ids[0], types[0])), rest);
        assert(acc.push((ids[0], types[0])) + property_pairs(ids_tail, types_tail) =~= acc + property_pairs(
            ids,
            types,
        ));
    }
}

/// Decoding encoded dictionaries gives them back.
#[verifier::rlimit(50)]
pub proof fn lemma_dictionaries_roundtrip(d: DictView, rest: Seq<u8>)
    requires
        crate::codec::op::dict_shaped(d),
        dict_within_limits(d),
    ensures
        spec_read_dictionaries(dict_bytes(d) + rest) == Ok::<(DictView, Seq<u8>), DecodeError>((d, rest)),
{
    let b4 = id_vec_bytes(d.objects) + rest;
    let b3 = id_vec_bytes(d.languages) + b4;
    let b2 = id_vec_bytes(d.relation_types) + b3;
    let b1 = concat(property_parts(d)) + b2;
    let count = varint_bytes(d.property_ids.len());
    let props = concat(property_parts(d));
    crate::codec::op::lemma_concat_assoc(
        count + props + id_vec_bytes(d.relation_types) + id_vec_bytes(d.languages),
        id_vec_bytes(d.objects),
        rest,
    );
    crate::codec::op::lemma_concat_assoc(
        count + props + id_vec_bytes(d.relation_types),
        id_vec_bytes(d.languages),
        b4,
    );
    crate::codec::op::lemma_concat_assoc(count + props, id_vec_bytes(d.relation_types), b3);
    crate::codec::op::lemma_concat_assoc(count, props, b2);
    assert(dict_bytes(d) + rest == count + b1);
    crate::codec::primitives::lemma_varint_roundtrip(d.property_ids.len() as u64, b1, "property_count");
    assert(property_parts(d) =~= pair_parts(d.property_ids, d.property_types));
    lemma_properties_roundtrip_from(d.property_ids, d.property_types, Seq::empty(), b2);
    let pairs = property_pairs(d.property_ids, d.property_types);
    assert(Seq::<(Seq<u8>, DataType)>::empty() + pairs =~= pairs);
    crate::codec::primitives::lemma_id_vec_roundtrip(d.relation_types, MAX_DICT_SIZE as nat, b3, "relation_types");
    crate::codec::primitives::lemma_id_vec_roundtrip(d.languages, MAX_DICT_SIZE as nat, b4, "languages");
    crate::codec::primitives::lemma_id_vec_roundtrip(d.objects, MAX_DICT_SIZE as nat, rest, "objects");
    let read = dict_of(pairs, d.relation_types, d.languages, d.objects);
    assert(read.property_ids =~= d.property_ids);
    assert(read.property_types =~= d.property_types);
}

/// Decoding the encodings of a list of operations gives the list back,
/// behind what was read before.
#[verifier::rlimit(40)]
#[verifier::spinoff_prover]
pub proof fn lemma_ops_roundtrip_from(ops: Seq<OpView>, acc: Seq<OpView>, d: DictView, rest: Seq<u8>)
    requires
        forall|i: int| 0 <= i < ops.len() ==> crate::codec::op::op_valid(#[trigger] ops[i], d),
        crate::codec::op::dict_in_range(d),
    ensures
        spec_read_ops_from(concat(op_parts(ops, d)) + rest, ops.len(), acc, d) == Ok::<
            (Seq<OpView>, Seq<u8>),
            DecodeError,
        >((acc + canonical_ops(ops), rest)),
    decreases ops.len(),
{
    if ops.len() == 0 {
        assert(concat(op_parts(ops, d)) + rest =~= rest);
        assert(acc + canonical_ops(ops) =~= acc);
    } else {
        let parts = op_parts(ops, d);
        let tail = ops.drop_first();
        crate::codec::primitives::lemma_concat_first(parts);
        assert(parts.drop_first() =~= op_parts(tail, d));
        let after = concat(op_parts(tail, d)) + rest;
        assert(concat(parts) + rest =~= op_bytes(ops[0], d) + after);
        assert(crate::codec::op::op_valid(ops[0], d));
        crate::codec::op::lemma_op_roundtrip(ops[0], d, after);
        assert forall|i: int| 0 <= i < tail.len() implies crate::codec::op::op_valid(#[trigger] tail[i], d) by {
            assert(tail[i] == ops[i + 1]);
        }
        lemma_ops_roundtrip_from(tail, acc.push(crate::codec::op::canonical_op(ops[0])), d, rest);
        assert(acc.push(crate::codec::op::canonical_op(ops[0])) + canonical_ops(tail) =~= acc + canonical_ops(
            ops,
        ));
    }
}

/// Decoding an encoded list of operations gives it back.
#[verifier::rlimit(50)]
pub proof fn lemma_ops_roundtrip(ops: Seq<OpView>, d: DictView, rest: Seq<u8>)
    requires
        ops.len() <= MAX_OPS_PER_EDIT,
        forall|i: int| 0 <= i < ops.len() ==> crate::codec::op::op_valid(#[trigger] ops[i], d),
        crate::codec::op::dict_in_range(d),
    ensures
        spec_read_ops(varint_bytes(ops.len()) + concat(op_parts(ops, d)) + rest, d) == Ok::<
            (Seq<OpView>, Seq<u8>),
            DecodeError,
        >((canonical_ops(ops), rest)),
{
    let body = concat(op_parts(ops, d)) + rest;
    assert(varint_bytes(ops.len()) + concat(op_parts(ops, d)) + rest =~= varint_bytes(ops.len()) + body);
    crate::codec::primitives::lemma_varint_roundtrip(ops.len() as u64, body, "op_count");
    lemma_ops_roundtrip_from(ops, Seq::empty(), d, rest);
    assert(Seq::<OpView>::empty() + canonical_ops(ops) =~= canonical_ops(ops));
}

/// Reading the frame that the encoder wrote for a valid edit gives the edit.
#[verifier::rlimit(50)]
pub proof fn lemma_frame_roundtrip(edit: EditView)
    requires
        edit_valid(edit),
    ensures
        spec_read_frame(edit_bytes(edit)) == Ok::<EditView, DecodeError>(canonical_edit(edit)),
{
    let d = dictionaries_of(edit.ops);
    lemma_valid_edit_ops(edit);
    let ops_b = varint_bytes(edit.ops.len()) + concat(op_parts(edit.ops, d));
    let b3 = ops_b + Seq::<u8>::empty();
    let b2 = dict_bytes(d) + b3;
    let b1 = header_bytes(edit) + b2;
    let b0 = seq![0x01u8] + b1;
    let magic = seq![0x47u8, 0x52u8, 0x43u8, 0x32u8];
    assert(b3 =~= ops_b);
    assert(frame_start() =~= magic + seq![0x01u8]);
    crate::codec::op::lemma_concat_assoc(
        frame_start() + header_bytes(edit) + dict_bytes(d),
        varint_bytes(edit.ops.len()),
        concat(op_parts(edit.ops, d)),
    );
    crate::codec::op::lemma_concat_assoc(frame_start() + header_bytes(edit), dict_bytes(d), ops_b);
    crate::codec::op::lemma_concat_assoc(frame_start(), header_bytes(edit), b2);
    crate::codec::op::lemma_concat_assoc(magic, seq![0x01u8], b1);
    assert(edit_bytes(edit) == magic + b0);
    crate::codec::primitives::lemma_bytes_roundtrip(magic, b0, "magic");
    crate::codec::value::lemma_byte_roundtrip(0x01u8, b1, "version");
    lemma_header_roundtrip(edit, b2);
    lemma_dictionaries_roundtrip(d, b3);
    lemma_ops_roundtrip(edit.ops, d, Seq::<u8>::empty());
}

/// The encoding of an edit starts with the magic `GRC2` and the version,
/// and so with neither less than five bytes nor the compressed magic.
pub proof fn lemma_edit_bytes_start(edit: EditView)
    ensures
        edit_bytes(edit).len() >= 5,
        edit_bytes(edit).take(5) == frame_start(),
        is_uncompressed(edit_bytes(edit)),
        !is_compressed(edit_bytes(edit)),
{
    let d = dictionaries_of(edit.ops);
    let tail = header_bytes(edit) + dict_bytes(d) + varint_bytes(edit.ops.len()) + concat(op_parts(edit.ops, d));
    let bytes = edit_bytes(edit);
    assert(bytes =~= frame_start() + tail);
    assert(bytes.take(5) =~= frame_start());
    assert(bytes.take(4) =~= frame_start().take(4));
    assert(bytes.take(5)[4] == 0x01u8);
    assert(compressed_start()[4] == 0x5Au8);
}

/// A compressed frame starts with the compressed magic, and what follows the
/// magic decompresses to the data that the stream holds, where the data is
/// within the edit size limit.
pub proof fn lemma_compressed_frame(data: Seq<u8>, stream: Seq<u8>)
    requires
        zstd_decoded(stream) == Some(data),
        data.len() <= MAX_EDIT_SIZE,
    ensures
        is_compressed(compressed_bytes(data.len(), stream)),
        spec_decompress(compressed_bytes(data.len(), stream).skip(5)) == Ok::<Seq<u8>, DecodeError>(data),
{
    let input = compressed_bytes(data.len(), stream);
    assert(input =~= compressed_start() + (varint_bytes(data.len()) + stream));
    assert(input.take(5) =~= compressed_start());
    assert(input.skip(5) =~= varint_bytes(data.len()) + stream);
    crate::codec::primitives::lemma_varint_roundtrip(data.len() as u64, stream, "uncompressed_size");
}

/// **Round trip.** Decoding the encoding of a valid edit gives the edit
/// back; only a binary64 negative zero comes back as positive zero, as the
/// encoder writes it.
#[verifier::rlimit(50)]
pub proof fn lemma_edit_roundtrip(edit: EditView)
    requires
        edit_valid(edit),
    ensures
        decodes_to(edit_bytes(edit), Ok::<EditView, DecodeError>(canonical_edit(edit))),
{
    lemma_frame_roundtrip(edit);
    lemma_edit_bytes_start(edit);
    assert(edit_bytes(edit).len() <= MAX_EDIT_SIZE);
}

/// **Round trip, compressed.** Decoding a compressed frame whose stream
/// decompresses to the encoding of a valid edit gives the edit back. Every
/// successful result of `encode_edit_compressed` is such a frame.
#[verifier::rlimit(50)]
pub proof fn lemma_compressed_roundtrip(edit: EditView, stream: Seq<u8>)
    requires
        edit_valid(edit),
        zstd_decoded(stream) == Some(edit_bytes(edit)),
    ensures
        decodes_to(
            compressed_bytes(edit_bytes(edit).len(), stream),
            Ok::<EditView, DecodeError>(canonical_edit(edit)),
        ),
{
    lemma_frame_roundtrip(edit);
    assert(edit_bytes(edit).len() <= MAX_EDIT_SIZE);
    lemma_compressed_frame(edit_bytes(edit), stream);
}

/// A value comes back from the round trip as it is: it is no binary64
/// negative zero.
pub open spec fn value_is_canonical(v: crate::model::value::ValueView) -> bool {
    crate::codec::value::canonical_value(v) == v
}

/// No value of the list is a binary64 negative zero.
pub open spec fn pvs_canonical(pvs: Seq<PropertyValueView>) -> bool {
    forall|i: int| 0 <= i < pvs.len() ==> value_is_canonical(#[trigger] pvs[i].value)
}

/// No value of the operation is a binary64 negative zero.
pub open spec fn op_is_canonical(op: OpView) -> bool {
    match op {
        OpView::CreateEntity { id, values } => pvs_canonical(values),
        OpView::UpdateEntity { id, set_properties, add_values, remove_values, unset_properties } => {
            &&& pvs_canonical(set_properties)
            &&& pvs_canonical(add_values)
            &&& pvs_canonical(remove_values)
        },
        _ => true,
    }
}

/// An edit comes back from the round trip as it is: it holds no binary64
/// value that is negative zero.
pub open spec fn edit_is_canonical(edit: EditView) -> bool {
    forall|i: int| 0 <= i < edit.ops.len() ==> op_is_canonical(#[trigger] edit.ops[i])
}

/// A list of values without a negative zero comes back as it is.
pub proof fn lemma_canonical_pvs(pvs: Seq<PropertyValueView>)
    requires
        pvs_canonical(pvs),
    ensures
        crate::codec::op::canonical_pvs(pvs) == pvs,
{
    assert forall|i: int| 0 <= i < pvs.len() implies crate::codec::op::canonical_pvs(pvs)[i] == pvs[i] by {
        assert(value_is_canonical(pvs[i].value));
    }
    assert(crate::codec::op::canonical_pvs(pvs) =~= pvs);
}

/// An operation without a negative zero comes back as it is.
pub proof fn lemma_canonical_op(op: OpView)
    requires
        op_is_canonical(op),
    ensures
        crate::codec::op::canonical_op(op) == op,
{
    match op {
        OpView::CreateEntity { id, values } => {
            lemma_canonical_pvs(values);
        },
        OpView::UpdateEntity { id, set_properties, add_values, remove_values, unset_properties } => {
            lemma_canonical_pvs(set_properties);
            lemma_canonical_pvs(add_values);
            lemma_canonical_pvs(remove_values);
        },
        _ => {},
    }
}

/// **Round trip, exact.** Decoding the encoding of a valid edit without a
/// binary64 negative zero gives exactly the edit.
#[verifier::rlimit(50)]
pub proof fn lemma_edit_roundtrip_exact(edit: EditView)
    requires
        edit_valid(edit),
        edit_is_canonical(edit),
    ensures
        decodes_to(edit_bytes(edit), Ok::<EditView, DecodeError>(edit)),
{
    lemma_edit_roundtrip(edit);
    assert forall|i: int| 0 <= i < edit.ops.len() implies canonical_ops(edit.ops)[i] == edit.ops[i] by {
        assert(op_is_canonical(edit.ops[i]));
        lemma_canonical_op(edit.ops[i]);
    }
    assert(canonical_ops(edit.ops) =~= edit.ops);
}

/// What the decoder yields for an input is determined by the input, but for
/// the message of a failed decompression.
pub proof fn lemma_decoding_determined(
    input: Seq<u8>,
    a: Result<EditView, DecodeError>,
    b: Result<EditView, DecodeError>,
)
    requires
        decodes_to(input, a),
        decodes_to(input, b),
    ensures
        a is Ok <==> b is Ok,
        a is Ok ==> a == b,
        a is Err && !(a->Err_0 is DecompressionFailed) && !(a->Err_0 is InvalidMagic) ==> a == b,
{
}

/// **Determinism.** Edits with one view have one encoding: the encoding
/// depends on nothing but the identifiers, the name, the authors, the time
/// and the operations in their order.
pub proof fn lemma_encoding_deterministic(a: Edit, b: Edit)
    requires
        a@ == b@,
    ensures
        edit_bytes(a@) == edit_bytes(b@),
        spec_check_edit(a@) == spec_check_edit(b@),
{
}

} // verus!
