//! Well-known type identifiers of the genesis space.

use vstd::prelude::*;
use crate::genesis::genesis_id;
use crate::genesis::spec_genesis_id;
use crate::model::id::Id;

verus! {

/// The Person type: a human individual.
pub fn person() -> (id: Id)
    ensures
        id@ == spec_genesis_id("Person"@),
{
    genesis_id("Person")
}

/// The Organization type: a company, an institution.
pub fn organization() -> (id: Id)
    ensures
        id@ == spec_genesis_id("Organization"@),
{
    genesis_id("Organization")
}

/// The Place type: a geographic location.
pub fn place() -> (id: Id)
    ensures
        id@ == spec_genesis_id("Place"@),
{
    genesis_id("Place")
}

/// The Topic type: a subject or concept.
pub fn topic() -> (id: Id)
    ensures
        id@ == spec_genesis_id("Topic"@),
{
    genesis_id("Topic")
}

} // verus!
