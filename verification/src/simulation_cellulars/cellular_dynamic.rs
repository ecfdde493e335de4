//! Host-side bookkeeping of the cellular dynamic solver: ring sizing, the tick
//! parameter block, dispatches, and the copies that commit resolved cells.

use vstd::prelude::*;
use crate::simulation::simulation_constants::MAXIMUM_MOVEMENT_CELLS;
use crate::simulation::thermal_phase_transitions::{spec_workgroups, workgroups_for};
use crate::tiles::TileCoordinates;

verus! {

/// What one cellular dynamic tick writes and dispatches
pub struct CellularDynamicTick {
    /// The parameter block, word by word
    pub parameters: [u32; 24],
    /// Workgroups of each of the clear, propose and resolve passes
    pub workgroups: u32,
    /// Bytes of each per-cell field copied back to canonical storage
    pub cell_field_size: u64,
}

/// Simulates dynamic cellular material in the canonical cellular buffers
pub struct CellularDynamic {
    /// Number of cells in the full buffered tile ring
    pub buffered_cell_count: u32,
    /// Deterministic priority seed advanced once per active fixed tick
    pub tick: u32,
}

impl CellularDynamic {
    /// The solver for a ring of `buffered_width` by `buffered_height` tiles; the ring's
    /// cells must leave room for reversible claim tickets (half the 32-bit range)
    pub fn new(buffered_width: u16, buffered_height: u16) -> (dynamic: Self)
        requires
            buffered_width * buffered_height * 64 <= u32::MAX / 2,
        ensures
            dynamic.buffered_cell_count == buffered_width * buffered_height * 64,
            dynamic.tick == 0,
    {
        let cells: u32 = buffered_width as u32 * buffered_height as u32 * 64;
        CellularDynamic { buffered_cell_count: cells, tick: 0 }
    }

    /// Plans one tick over the ring-buffered grid and advances the tick seed; the
    /// float inputs come as bit patterns
    pub fn simulate_cellular_dynamic_tick(
        &mut self,
        buffered_origin: TileCoordinates,
        buffered_width: u16,
        buffered_height: u16,
        ring_offset_x: u16,
        ring_offset_y: u16,
        gravity_bits: [u32; 2],
        delta_time_bits: u32,
    ) -> (tick: CellularDynamicTick)
        ensures
            final(self).buffered_cell_count == old(self).buffered_cell_count,
            final(self).tick == (old(self).tick + 1) % 0x1_0000_0000,
            tick.parameters@ == seq![
                buffered_origin.x as u32,
                buffered_origin.y as u32,
                buffered_width as u32,
                buffered_height as u32,
                buffered_origin.x as u32,
                buffered_origin.y as u32,
                buffered_width as u32,
                buffered_height as u32,
                ring_offset_x as u32,
                ring_offset_y as u32,
                gravity_bits[0],
                gravity_bits[1],
                delta_time_bits,
                old(self).tick,
                old(self).buffered_cell_count,
                MAXIMUM_MOVEMENT_CELLS,
                0u32, 0u32, 0u32, 0u32, 0u32, 0u32, 0u32, 0u32,
            ],
            tick.workgroups == spec_workgroups(old(self).buffered_cell_count as int),
            tick.cell_field_size == old(self).buffered_cell_count * 4,
    {
        let parameters: [u32; 24] = [
            buffered_origin.x as u32,
            buffered_origin.y as u32,
            buffered_width as u32,
            buffered_height as u32,
            buffered_origin.x as u32,
            buffered_origin.y as u32,
            buffered_width as u32,
            buffered_height as u32,
            ring_offset_x as u32,
            ring_offset_y as u32,
            gravity_bits[0],
            gravity_bits[1],
            delta_time_bits,
            self.tick,
            self.buffered_cell_count,
            MAXIMUM_MOVEMENT_CELLS,
            0,
            0,
            0,
            0,
            0,
            0,
            0,
            0,
        ];
        let tick = CellularDynamicTick {
            parameters,
            workgroups: workgroups_for(self.buffered_cell_count),
            cell_field_size: self.buffered_cell_count as u64 * 4,
        };
        self.tick = self.tick.wrapping_add(1);
        tick
    }

    /// The byte range of the kinematics that `cell_count` cells from `cell_start` occupy
    pub fn clear_cellular_dynamic_kinematics(&self, cell_start: usize, cell_count: usize) -> (range: (
        u64,
        usize,
    ))
        requires
            cell_start * 16 <= u64::MAX,
            cell_count * 16 <= usize::MAX,
        ensures
            range.0 == cell_start * 16,
            range.1 == cell_count * 16,
    {
        (cell_start as u64 * 16, cell_count * 16)
    }
}

} // verus!
