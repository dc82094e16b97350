//! Well-known relation type identifiers of the genesis space.

use vstd::prelude::*;
use crate::genesis::genesis_id;
use crate::genesis::spec_genesis_id;
use crate::model::id::Id;

verus! {

/// The Types relation: type membership.
pub fn types() -> (id: Id)
    ensures
        id@ == spec_genesis_id("Types"@),
{
    genesis_id("Types")
}

/// The PartOf relation: composition or containment.
pub fn part_of() -> (id: Id)
    ensures
        id@ == spec_genesis_id("PartOf"@),
{
    genesis_id("PartOf")
}

/// The RelatedTo relation: a generic association.
pub fn related_to() -> (id: Id)
    ensures
        id@ == spec_genesis_id("RelatedTo"@),
{
    genesis_id("RelatedTo")
}

} // verus!
