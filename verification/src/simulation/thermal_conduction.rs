//! Host-side bookkeeping of thermal conduction: its parameter block and dispatches.

use vstd::prelude::*;
use crate::simulation::thermal_phase_transitions::{spec_workgroups, workgroups_for};

verus! {

/// One conduction step: its parameter block, and the workgroups of each of its
/// flux, sum, actual flux and resolve passes
pub struct ConductionPass {
    pub parameters: [u32; 8],
    pub workgroups: u32,
    pub pass_count: u32,
}

/// Conducts heat between neighbouring cells
pub struct ThermalConduction {
    pub cell_count: u32,
}

impl ThermalConduction {
    /// Conduction over `cell_count` ring cells
    pub fn new(cell_count: u32) -> (conduction: Self)
        ensures
            conduction.cell_count == cell_count,
    {
        ThermalConduction { cell_count }
    }

    /// Plans one conduction step over the ring-buffered grid; `delta_time_bits` is the
    /// bit pattern of the step's duration
    pub fn encode(&self, origin: [i32; 2], tiles: [u32; 2], ring: [u32; 2], delta_time_bits: u32) -> (pass:
        ConductionPass)
        ensures
            pass.parameters@ == seq![
                delta_time_bits,
                self.cell_count,
                origin[0] as u32,
                origin[1] as u32,
                tiles[0],
                tiles[1],
                ring[0],
                ring[1],
            ],
            pass.workgroups == spec_workgroups(self.cell_count as int),
            pass.pass_count == 4,
    {
        ConductionPass {
            parameters: [
                delta_time_bits,
                self.cell_count,
                origin[0] as u32,
                origin[1] as u32,
                tiles[0],
                tiles[1],
                ring[0],
                ring[1],
            ],
            workgroups: workgroups_for(self.cell_count),
            pass_count: 4,
        }
    }
}

} // verus!
