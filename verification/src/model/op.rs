//! Operations: the single mutations that an edit batches.

use vstd::prelude::*;
use vstd::string::StrSliceExecFns;
use vstd::utf8::encode_utf8;
use crate::limits::MAX_POSITION_LEN;
use crate::model::id::Id;
use crate::model::id::opt_id_view;
use crate::model::id::unique_relation_id;
use crate::model::id::spec_unique_relation_id;
use crate::codec::primitives::ids_view;
use crate::model::value::DataType;
use crate::model::value::PropertyValue;
use crate::model::value::PropertyValueView;
use crate::model::value::property_values_view;

verus! {

/// Declares a property and its data type.
#[derive(Debug, Clone, PartialEq)]
pub struct CreateProperty {
    pub id: Id,
    pub data_type: DataType,
}

/// Creates an entity with its initial values.
#[derive(Debug, Clone, PartialEq)]
pub struct CreateEntity {
    pub id: Id,
    pub values: Vec<PropertyValue>,
}

/// Updates an entity: properties to replace, values to add and to remove,
/// and properties to clear.
#[derive(Debug, Clone, PartialEq)]
pub struct UpdateEntity {
    pub id: Id,
    pub set_properties: Vec<PropertyValue>,
    pub add_values: Vec<PropertyValue>,
    pub remove_values: Vec<PropertyValue>,
    pub unset_properties: Vec<Id>,
}

/// Deletes an entity.
#[derive(Debug, Clone, PartialEq)]
pub struct DeleteEntity {
    pub id: Id,
}

/// Creates a relation.
///
/// With `id` present the relation carries that identifier on the wire; with
/// `id` absent the relation is in unique mode and its identifier is derived
/// from its source, target and type.
#[derive(Debug, Clone, PartialEq)]
pub struct CreateRelation {
    pub id: Option<Id>,
    pub from: Id,
    pub to: Id,
    pub relation_type: Id,
    pub position: Option<String>,
    pub verified: Option<bool>,
}

/// Updates the position or the verification mark of a relation.
#[derive(Debug, Clone, PartialEq)]
pub struct UpdateRelation {
    pub id: Id,
    pub position: Option<String>,
    pub verified: Option<bool>,
}

/// Deletes a relation.
#[derive(Debug, Clone, PartialEq)]
pub struct DeleteRelation {
    pub id: Id,
}

/// A single mutation of the graph.
#[derive(Debug, Clone, PartialEq)]
pub enum Op {
    CreateProperty(CreateProperty),
    CreateEntity(CreateEntity),
    UpdateEntity(UpdateEntity),
    DeleteEntity(DeleteEntity),
    CreateRelation(CreateRelation),
    UpdateRelation(UpdateRelation),
    DeleteRelation(DeleteRelation),
}

/// The view of an operation.
#[allow(inconsistent_fields)]
pub enum OpView {
    CreateProperty { id: Seq<u8>, data_type: DataType },
    CreateEntity { id: Seq<u8>, values: Seq<PropertyValueView> },
    UpdateEntity {
        id: Seq<u8>,
        set_properties: Seq<PropertyValueView>,
        add_values: Seq<PropertyValueView>,
        remove_values: Seq<PropertyValueView>,
        unset_properties: Seq<Seq<u8>>,
    },
    DeleteEntity { id: Seq<u8> },
    CreateRelation {
        id: Option<Seq<u8>>,
        from: Seq<u8>,
        to: Seq<u8>,
        relation_type: Seq<u8>,
        position: Option<Seq<char>>,
        verified: Option<bool>,
    },
    UpdateRelation { id: Seq<u8>, position: Option<Seq<char>>, verified: Option<bool> },
    DeleteRelation { id: Seq<u8> },
}

/// The view of an optional string.
pub open spec fn opt_string_view(s: Option<String>) -> Option<Seq<char>> {
    match s {
        Some(s) => Some(s@),
        None => None,
    }
}

impl View for Op {
    type V = OpView;

    open spec fn view(&self) -> OpView {
        match self {
            Op::CreateProperty(cp) => OpView::CreateProperty { id: cp.id@, data_type: cp.data_type },
            Op::CreateEntity(ce) => OpView::CreateEntity {
                id: ce.id@,
                values: property_values_view(ce.values@),
            },
            Op::UpdateEntity(ue) => OpView::UpdateEntity {
                id: ue.id@,
                set_properties: property_values_view(ue.set_properties@),
                add_values: property_values_view(ue.add_values@),
                remove_values: property_values_view(ue.remove_values@),
                unset_properties: ids_view(ue.unset_properties@),
            },
            Op::DeleteEntity(de) => OpView::DeleteEntity { id: de.id@ },
            Op::CreateRelation(cr) => OpView::CreateRelation {
                id: opt_id_view(cr.id),
                from: cr.from@,
                to: cr.to@,
                relation_type: cr.relation_type@,
                position: opt_string_view(cr.position),
                verified: cr.verified,
            },
            Op::UpdateRelation(ur) => OpView::UpdateRelation {
                id: ur.id@,
                position: opt_string_view(ur.position),
                verified: ur.verified,
            },
            Op::DeleteRelation(dr) => OpView::DeleteRelation { id: dr.id@ },
        }
    }
}

/// The views of a list of operations.
pub open spec fn ops_view(ops: Seq<Op>) -> Seq<OpView> {
    Seq::new(ops.len(), |i: int| ops[i]@)
}

impl CreateRelation {
    /// The identifier of the relation: the explicit one, or in unique mode
    /// the one derived from source, target and type.
    pub fn relation_id(&self) -> (id: Id)
        ensures
            id@ == (match self.id {
                Some(explicit) => explicit@,
                None => spec_unique_relation_id(self.from@, self.to@, self.relation_type@),
            }),
    {
        match &self.id {
            Some(explicit) => *explicit,
            None => unique_relation_id(&self.from, &self.to, &self.relation_type),
        }
    }
}

// ---------------------------------------------------------------------------
// Position strings
// ---------------------------------------------------------------------------

/// A character that a position string may hold: `0-9`, `A-Z` or `a-z`.
pub open spec fn is_position_char(c: char) -> bool {
    ('0' <= c <= '9') || ('A' <= c <= 'Z') || ('a' <= c <= 'z')
}

/// The first character from index `from` on that a position may not hold.
pub open spec fn first_bad_position_char(s: Seq<char>, from: int) -> Option<char>
    decreases s.len() - from,
{
    if from < 0 || from >= s.len() {
        None
    } else if !is_position_char(s[from]) {
        Some(s[from])
    } else {
        first_bad_position_char(s, from + 1)
    }
}

/// A position is valid: at most 64 bytes of UTF-8, all of them position
/// characters.
pub open spec fn position_valid(s: Seq<char>) -> bool {
    encode_utf8(s).len() <= MAX_POSITION_LEN && first_bad_position_char(s, 0) is None
}

/// Tells whether a position string may hold `c`.
pub fn position_char_ok(c: char) -> (res: bool)
    ensures
        res == is_position_char(c),
{
    ('0' <= c && c <= '9') || ('A' <= c && c <= 'Z') || ('a' <= c && c <= 'z')
}

/// Finds the first character of `s` that a position may not hold.
pub fn find_bad_position_char(s: &str) -> (res: Option<char>)
    ensures
        res == first_bad_position_char(s@, 0),
{
    let n: usize = s.unicode_len();
    let mut i: usize = 0;
    while i < n
        invariant
            i <= n,
            n == s@.len(),
            first_bad_position_char(s@, 0) == first_bad_position_char(s@, i as int),
        decreases n - i,
    {
        let c: char = s.get_char(i);
        if !position_char_ok(c) {
            return Some(c);
        }
        i = i + 1;
    }
    None
}

/// What `validate_position` reports.
pub open spec fn position_validation(s: Seq<char>) -> Result<(), &'static str> {
    if encode_utf8(s).len() > MAX_POSITION_LEN {
        Err("position exceeds 64 characters")
    } else if first_bad_position_char(s, 0) is Some {
        Err("position contains a character outside 0-9, A-Z, a-z")
    } else {
        Ok(())
    }
}

/// Validates a position string: at most 64 bytes, only `0-9`, `A-Z`, `a-z`.
pub fn validate_position(pos: &str) -> (res: Result<(), &'static str>)
    ensures
        res == position_validation(pos@),
        res is Ok <==> position_valid(pos@),
{
    if pos.as_bytes().len() > MAX_POSITION_LEN {
        return Err("position exceeds 64 characters");
    }
    match find_bad_position_char(pos) {
        Some(_) => Err("position contains a character outside 0-9, A-Z, a-z"),
        None => Ok(()),
    }
}

} // verus!
