//! Host-side bookkeeping of the thermal interaction gather: the ring placement it
//! writes into its parameter block, and its dispatch.

use vstd::prelude::*;
use crate::simulation::thermal_phase_transitions::{spec_workgroups, workgroups_for};

verus! {

/// Byte offset of the ring placement in the interaction parameter block
pub const RING_PLACEMENT_OFFSET: u64 = 48;

/// Gathers the thermal properties each cell interacts with
pub struct ThermalInteraction {
    pub cell_count: u32,
}

impl ThermalInteraction {
    /// The gather over `cell_count` ring cells
    pub fn new(cell_count: u32) -> (interaction: Self)
        ensures
            interaction.cell_count == cell_count,
    {
        ThermalInteraction { cell_count }
    }

    /// Plans one gather: the six ring placement words written from byte 48 of the
    /// parameter block, and the gather's workgroups
    pub fn gather(&self, buffered_origin: [i32; 2], buffered_tiles: [u32; 2], ring_offset: [u32; 2]) -> (plan: (
        u64,
        [u32; 6],
        u32,
    ))
        ensures
            plan.0 == RING_PLACEMENT_OFFSET,
            plan.1@ == seq![
                buffered_origin[0] as u32,
                buffered_origin[1] as u32,
                buffered_tiles[0],
                buffered_tiles[1],
                ring_offset[0],
                ring_offset[1],
            ],
            plan.2 == spec_workgroups(self.cell_count as int),
    {
        (
            RING_PLACEMENT_OFFSET,
            [
                buffered_origin[0] as u32,
                buffered_origin[1] as u32,
                buffered_tiles[0],
                buffered_tiles[1],
                ring_offset[0],
                ring_offset[1],
            ],
            workgroups_for(self.cell_count),
        )
    }
}

} // verus!
