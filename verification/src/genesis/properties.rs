//! Well-known property identifiers of the genesis space.

use vstd::prelude::*;
use crate::genesis::genesis_id;
use crate::genesis::spec_genesis_id;
use crate::model::id::Id;

verus! {

/// The Name property: the primary label (text).
pub fn name() -> (id: Id)
    ensures
        id@ == spec_genesis_id("Name"@),
{
    genesis_id("Name")
}

/// The Description property: a summary (text).
pub fn description() -> (id: Id)
    ensures
        id@ == spec_genesis_id("Description"@),
{
    genesis_id("Description")
}

/// The Avatar property: an image URL (text).
pub fn avatar() -> (id: Id)
    ensures
        id@ == spec_genesis_id("Avatar"@),
{
    genesis_id("Avatar")
}

/// The URL property: an external link (text).
pub fn url() -> (id: Id)
    ensures
        id@ == spec_genesis_id("URL"@),
{
    genesis_id("URL")
}

/// The Created property: the creation time (timestamp).
pub fn created() -> (id: Id)
    ensures
        id@ == spec_genesis_id("Created"@),
{
    genesis_id("Created")
}

/// The Modified property: the time of the last change (timestamp).
pub fn modified() -> (id: Id)
    ensures
        id@ == spec_genesis_id("Modified"@),
{
    genesis_id("Modified")
}

} // verus!
