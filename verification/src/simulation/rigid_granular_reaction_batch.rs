use vstd::prelude::*;

verus! {

/// One fixed-point generalized impulse read back from the accelerator: linear x
/// and y and angular components in units of 1/65536, and an energy budget in
/// units of 1/256
#[derive(Clone, Copy, Debug, PartialEq, Eq, Structural)]
pub struct FixedPointImpulse {
    pub x: i32,
    pub y: i32,
    pub angular: i32,
    pub budget: u32,
}

/// One asynchronously completed rigid/granular reaction batch, in the exact
/// integer form the accelerator wrote it
pub struct RigidGranularReactionBatch {
    /// The dispatch-order sequence of the batch
    pub sequence: u64,
    /// The rigid topology revision the batch was computed for
    pub topology_revision: u64,
    /// The number of rigid bodies the batch describes
    pub body_count: usize,
    /// Accumulated reaction per body: x and y in 1/256, angular in 1/64
    pub reactions: Vec<[i32; 3]>,
    /// Total contact count per body
    pub contact_counts: Vec<u32>,
    /// Static-terrain contact count per body
    pub static_contact_counts: Vec<u32>,
    /// Granular contact count per body
    pub granular_contact_counts: Vec<u32>,
    /// Moving granular contact count per body
    pub moving_contact_counts: Vec<u32>,
    /// Energy budget per body in 1/256
    pub energy_budgets: Vec<u32>,
    /// Kinematic constraint impulse per body
    pub constraints: Vec<FixedPointImpulse>,
    /// Support impulse per body
    pub supports: Vec<FixedPointImpulse>,
    /// Recovery impulse per body
    pub recovery: Vec<FixedPointImpulse>,
    /// Source motion per body: three floating-point bit patterns and a count
    pub source_motion: Vec<[u32; 4]>,
    /// Rigid cell slots fractured by pressure damage, in ascending order
    pub fractured_slots: Vec<u32>,
}

} // verus!
