//! Host-side bookkeeping of thermal scatter: its parameter block and the order of
//! its cellular, fluid and rigid passes.

use vstd::prelude::*;
use crate::simulation::thermal_phase_transitions::{spec_workgroups, workgroups_for};

verus! {

/// One pass of thermal scatter
#[derive(Clone, Copy, Debug, PartialEq, Eq, Structural)]
pub enum ScatterPass {
    ClearRigid,
    Cellular,
    Fluid,
    AccumulateRigid,
    ApplyRigid,
}

/// Scatters solved temperatures back to cells, particles and rigid cells
pub struct ThermalScatter {
    pub cell_count: u32,
    pub particle_capacity: u32,
    pub rigid_capacity: u32,
}

/// The passes of one scatter with their workgroups: the rigid passes run only when
/// rigid cells exist
pub open spec fn scatter_schedule(scatter: ThermalScatter, has_rigid: bool) -> Seq<(ScatterPass, u32)> {
    let cells = spec_workgroups(scatter.cell_count as int) as u32;
    let particles = spec_workgroups(scatter.particle_capacity as int) as u32;
    let rigid = spec_workgroups(scatter.rigid_capacity as int) as u32;
    if has_rigid {
        seq![
            (ScatterPass::ClearRigid, rigid),
            (ScatterPass::Cellular, cells),
            (ScatterPass::Fluid, particles),
            (ScatterPass::AccumulateRigid, cells),
            (ScatterPass::ApplyRigid, rigid),
        ]
    } else {
        seq![(ScatterPass::Cellular, cells), (ScatterPass::Fluid, particles)]
    }
}

impl ThermalScatter {
    /// Scatter over `cell_count` ring cells, `particle_capacity` particles and
    /// `rigid_capacity` rigid cells
    pub fn new(cell_count: u32, particle_capacity: u32, rigid_capacity: u32) -> (scatter: Self)
        ensures
            scatter.cell_count == cell_count,
            scatter.particle_capacity == particle_capacity,
            scatter.rigid_capacity == rigid_capacity,
    {
        ThermalScatter { cell_count, particle_capacity, rigid_capacity }
    }

    /// Plans one scatter: its parameter block and its passes
    pub fn encode(&self, origin: [i32; 2], tiles: [u32; 2], ring: [u32; 2], has_rigid: bool) -> (plan: (
        [u32; 6],
        Vec<(ScatterPass, u32)>,
    ))
        ensures
            plan.0@ == seq![origin[0] as u32, origin[1] as u32, tiles[0], tiles[1], ring[0], ring[1]],
            plan.1@ == scatter_schedule(*self, has_rigid),
    {
        let cells: u32 = workgroups_for(self.cell_count);
        let particles: u32 = workgroups_for(self.particle_capacity);
        let rigid: u32 = workgroups_for(self.rigid_capacity);
        let mut passes: Vec<(ScatterPass, u32)> = Vec::new();
        if has_rigid {
            passes.push((ScatterPass::ClearRigid, rigid));
        }
        passes.push((ScatterPass::Cellular, cells));
        passes.push((ScatterPass::Fluid, particles));
        if has_rigid {
            passes.push((ScatterPass::AccumulateRigid, cells));
            passes.push((ScatterPass::ApplyRigid, rigid));
        }
        proof {
            assert(passes@ =~= scatter_schedule(*self, has_rigid));
        }
        ([origin[0] as u32, origin[1] as u32, tiles[0], tiles[1], ring[0], ring[1]], passes)
    }
}

} // verus!
