use vstd::prelude::*;

use super::rigid_granular_reaction_batch::RigidGranularReactionBatch;

verus! {

/// The lifecycle of one ordered rigid/granular reaction readback
pub enum RigidGranularReadbackStatus {
    Available,
    Mapping,
    Complete(Result<RigidGranularReactionBatch, String>),
}

} // verus!
