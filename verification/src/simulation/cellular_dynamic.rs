//! Host-side bookkeeping of the epoch-guarded cellular dynamic sweeps: ring and
//! buffer sizing, the aligned per-step parameter blocks, the indirect movement
//! dispatches of the four parity groups, epoch rollover, and the ranges a CPU write
//! clears and wakes.

use vstd::prelude::*;
use crate::simulation::simulation_constants::MAXIMUM_MOVEMENT_CELLS;
use crate::simulation::thermal_phase_transitions::{spec_workgroups, workgroups_for};
use crate::tiles::TileCoordinates;

verus! {

/// Independently epoch-guarded granular sweeps per fixed tick
pub const MOVEMENT_STEPS_PER_TICK: u32 = 4;

/// Uniform-buffer bytes each movement step reads
pub const PARAMETER_SIZE: u64 = 64;

/// The activity word of a tile woken by a CPU write: active, with a countdown of eight
pub const WOKEN_TILE: u32 = 0x8000_0008;

/// `PARAMETER_SIZE` rounded up to a multiple of `alignment`
pub open spec fn spec_parameter_stride(alignment: int) -> int {
    (PARAMETER_SIZE + alignment - 1) / alignment * alignment
}

/// The buffers of the sweeps, in elements
pub struct CellularDynamicBuffers {
    /// One kinematic record per buffered cell
    pub kinematics: u32,
    /// One processed epoch per buffered cell
    pub processed_epochs: u32,
    /// One activity countdown per buffered tile
    pub active_tiles: u32,
    /// One compacted tile index segment per parity group
    pub active_tile_indices: u64,
    /// Bytes of the four indirect dispatch records
    pub indirect_dispatch_size: u64,
    /// Bytes of the per-step parameter blocks
    pub parameters_size: u64,
}

/// What one tick writes and dispatches
pub struct CellularDynamicSweep {
    /// Whether every processed epoch is cleared first because the epoch counter rolled over
    pub rollover: bool,
    /// The byte offset and words of each step's parameter block
    pub parameter_writes: Vec<(u64, [u32; 16])>,
    /// Workgroups of the pass that compacts the active tiles
    pub compact_workgroups: u32,
    /// Each movement pass in order: the dynamic offset of its step's parameters and
    /// the byte offset of its group's indirect dispatch record
    pub movement_passes: Vec<(u32, u64)>,
}

/// The byte ranges a CPU write of cells clears, and the tile activity words it writes
pub struct KinematicsClear {
    pub kinematics_offset: u64,
    pub kinematics_bytes: usize,
    pub epochs_offset: u64,
    pub epochs_bytes: usize,
    pub tiles_offset: u64,
    pub tile_words: Vec<u32>,
}

/// Simulates dynamic cellular material with epoch-guarded sweeps over active tiles
pub struct CellularDynamic {
    pub buffered_cell_count: u32,
    pub buffered_tile_size: [u16; 2],
    pub parameter_stride: u32,
    pub epoch: u32,
}

/// The parameter block of one movement step
pub open spec fn step_parameters(
    origin: TileCoordinates,
    size: [u16; 2],
    ring_offset_x: u16,
    ring_offset_y: u16,
    gravity_bits: [u32; 2],
    step_delta_time_bits: u32,
    epoch: u32,
    cells: u32,
) -> Seq<u32> {
    seq![
        origin.x as u32,
        origin.y as u32,
        size[0] as u32,
        size[1] as u32,
        ring_offset_x as u32,
        ring_offset_y as u32,
        gravity_bits[0],
        gravity_bits[1],
        step_delta_time_bits,
        epoch,
        cells,
        MAXIMUM_MOVEMENT_CELLS,
        0u32,
        0u32,
        0u32,
        0u32,
    ]
}

impl CellularDynamic {
    /// Epochs count from one; zero marks matter no step has processed
    pub open spec fn wf(&self) -> bool {
        self.epoch >= 1
    }

    /// The sweeps for a ring of `buffered_width` by `buffered_height` tiles on a
    /// device whose uniform offsets align to `uniform_alignment` bytes; the first
    /// tick uses epoch one
    pub fn new(buffered_width: u16, buffered_height: u16, uniform_alignment: u32) -> (result: (Self, CellularDynamicBuffers))
        requires
            buffered_width * buffered_height * 64 <= u32::MAX,
            uniform_alignment >= 1,
        ensures
            result.0.wf(),
            result.0.buffered_cell_count == buffered_width * buffered_height * 64,
            result.0.buffered_tile_size == [buffered_width, buffered_height],
            result.0.parameter_stride == spec_parameter_stride(uniform_alignment as int),
            result.0.epoch == 1,
            result.1.kinematics == result.0.buffered_cell_count,
            result.1.processed_epochs == result.0.buffered_cell_count,
            result.1.active_tiles == buffered_width * buffered_height,
            result.1.active_tile_indices == buffered_width * buffered_height * 4,
            result.1.indirect_dispatch_size == 48,
            result.1.parameters_size == result.0.parameter_stride * MOVEMENT_STEPS_PER_TICK,
    {
        let tiles: u32 = buffered_width as u32 * buffered_height as u32;
        let cells: u32 = tiles * 64;
        let alignment: u64 = uniform_alignment as u64;
        let blocks: u64 = (PARAMETER_SIZE + alignment - 1) / alignment;
        assert(blocks * alignment <= 64 + alignment) by (nonlinear_arith)
            requires
                alignment >= 1,
                blocks == (64 + alignment - 1) as int / alignment as int,
        {
            assert(blocks * alignment <= 64 + alignment - 1);
        }
        assert(alignment >= 64 ==> blocks == 1) by (nonlinear_arith)
            requires
                alignment >= 1,
                blocks == (64 + alignment - 1) as int / alignment as int,
        {
            if alignment >= 64 {
                assert(64 + alignment - 1 < 2 * alignment);
                assert(blocks * alignment <= 64 + alignment - 1);
                assert(blocks >= 1);
            }
        }
        assert(blocks * alignment <= u32::MAX) by (nonlinear_arith)
            requires
                alignment >= 1,
                alignment <= u32::MAX,
                blocks * alignment <= 64 + alignment,
                alignment >= 64 ==> blocks == 1,
        {
        }
        let stride: u32 = (blocks * alignment) as u32;
        let dynamic = CellularDynamic {
            buffered_cell_count: cells,
            buffered_tile_size: [buffered_width, buffered_height],
            parameter_stride: stride,
            epoch: 1,
        };
        let buffers = CellularDynamicBuffers {
            kinematics: cells,
            processed_epochs: cells,
            active_tiles: tiles,
            active_tile_indices: tiles as u64 * 4,
            indirect_dispatch_size: 48,
            parameters_size: stride as u64 * MOVEMENT_STEPS_PER_TICK as u64,
        };
        (dynamic, buffers)
    }

    /// Plans one tick: when too few epochs remain for its steps, every processed
    /// epoch is cleared and counting restarts at one; each step then gets its own
    /// epoch and parameter block, the active tiles are compacted, and each step runs
    /// the four parity groups from their indirect dispatch records
    #[verifier::rlimit(40)]
    pub fn simulate_cellular_dynamic_tick(
        &mut self,
        buffered_origin: TileCoordinates,
        ring_offset_x: u16,
        ring_offset_y: u16,
        gravity_bits: [u32; 2],
        step_delta_time_bits: u32,
    ) -> (sweep: CellularDynamicSweep)
        requires
            old(self).wf(),
            old(self).parameter_stride * (MOVEMENT_STEPS_PER_TICK - 1) <= u32::MAX,
        ensures
            final(self).wf(),
            final(self).buffered_cell_count == old(self).buffered_cell_count,
            final(self).buffered_tile_size == old(self).buffered_tile_size,
            final(self).parameter_stride == old(self).parameter_stride,
            sweep.rollover == (old(self).epoch > u32::MAX - MOVEMENT_STEPS_PER_TICK),
            ({
                let first = if sweep.rollover { 1 } else { old(self).epoch as int };
                &&& final(self).epoch == first + MOVEMENT_STEPS_PER_TICK
                &&& sweep.parameter_writes@.len() == MOVEMENT_STEPS_PER_TICK
                &&& forall|step: int| 0 <= step < MOVEMENT_STEPS_PER_TICK ==> {
                    &&& (#[trigger] sweep.parameter_writes@[step]).0 == old(self).parameter_stride * step
                    &&& sweep.parameter_writes@[step].1@ == step_parameters(
                        buffered_origin,
                        old(self).buffered_tile_size,
                        ring_offset_x,
                        ring_offset_y,
                        gravity_bits,
                        step_delta_time_bits,
                        (first + step) as u32,
                        old(self).buffered_cell_count,
                    )
                }
            }),
            sweep.compact_workgroups == spec_workgroups((old(self).buffered_cell_count / 64) as int),
            sweep.movement_passes@.len() == MOVEMENT_STEPS_PER_TICK * 4,
            forall|step: int, group: int| 0 <= step < MOVEMENT_STEPS_PER_TICK && 0 <= group < 4 ==> (#[trigger] sweep.movement_passes@[step * 4 + group]).0
                == old(self).parameter_stride * step && sweep.movement_passes@[step * 4 + group].1 == 12 * group,
    {
        let rollover: bool = self.epoch > u32::MAX - MOVEMENT_STEPS_PER_TICK;
        if rollover {
            self.epoch = 1;
        }
        let first: u32 = self.epoch;
        let mut parameter_writes: Vec<(u64, [u32; 16])> = Vec::new();
        let mut step: u32 = 0;
        while step < MOVEMENT_STEPS_PER_TICK
            invariant
                1 <= first <= u32::MAX - MOVEMENT_STEPS_PER_TICK,
                self.parameter_stride * (MOVEMENT_STEPS_PER_TICK - 1) <= u32::MAX,
                step <= MOVEMENT_STEPS_PER_TICK,
                parameter_writes@.len() == step,
                forall|s: int| 0 <= s < step ==> {
                    &&& (#[trigger] parameter_writes@[s]).0 == self.parameter_stride * s
                    &&& parameter_writes@[s].1@ == step_parameters(
                        buffered_origin,
                        self.buffered_tile_size,
                        ring_offset_x,
                        ring_offset_y,
                        gravity_bits,
                        step_delta_time_bits,
                        (first + s) as u32,
                        self.buffered_cell_count,
                    )
                },
            decreases MOVEMENT_STEPS_PER_TICK - step,
        {
            let values: [u32; 16] = [
                buffered_origin.x as u32,
                buffered_origin.y as u32,
                self.buffered_tile_size[0] as u32,
                self.buffered_tile_size[1] as u32,
                ring_offset_x as u32,
                ring_offset_y as u32,
                gravity_bits[0],
                gravity_bits[1],
                step_delta_time_bits,
                first + step,
                self.buffered_cell_count,
                MAXIMUM_MOVEMENT_CELLS,
                0,
                0,
                0,
                0,
            ];
            assert(self.parameter_stride * step <= 0xffff_ffffu64 * 4) by (nonlinear_arith)
                requires
                    step <= MOVEMENT_STEPS_PER_TICK,
                    self.parameter_stride <= 0xffff_ffffu32,
            ;
            parameter_writes.push((self.parameter_stride as u64 * step as u64, values));
            step = step + 1;
        }
        let tile_count: u32 = self.buffered_cell_count / 64;
        let compact_workgroups: u32 = workgroups_for(tile_count);
        let mut movement_passes: Vec<(u32, u64)> = Vec::new();
        let mut step: u32 = 0;
        while step < MOVEMENT_STEPS_PER_TICK
            invariant
                step <= MOVEMENT_STEPS_PER_TICK,
                self.parameter_stride * (MOVEMENT_STEPS_PER_TICK - 1) <= u32::MAX,
                movement_passes@.len() == step * 4,
                forall|s: int, g: int| 0 <= s < step && 0 <= g < 4 ==> (#[trigger] movement_passes@[s * 4 + g]).0
                    == self.parameter_stride * s && movement_passes@[s * 4 + g].1 == 12 * g,
            decreases MOVEMENT_STEPS_PER_TICK - step,
        {
            assert(self.parameter_stride * step <= self.parameter_stride * (MOVEMENT_STEPS_PER_TICK - 1)) by (nonlinear_arith)
                requires
                    step < MOVEMENT_STEPS_PER_TICK,
            ;
            let offset: u32 = self.parameter_stride * step;
            let mut group: u64 = 0;
            while group < 4
                invariant
                    step < MOVEMENT_STEPS_PER_TICK,
                    offset == self.parameter_stride * step,
                    group <= 4,
                    movement_passes@.len() == step * 4 + group,
                    forall|s: int, g: int| 0 <= s < step && 0 <= g < 4 ==> (#[trigger] movement_passes@[s * 4 + g]).0
                        == self.parameter_stride * s && movement_passes@[s * 4 + g].1 == 12 * g,
                    forall|g: int| 0 <= g < group ==> (#[trigger] movement_passes@[step * 4 + g]).0 == offset
                        && movement_passes@[step * 4 + g].1 == 12 * g,
                decreases 4 - group,
            {
                movement_passes.push((offset, group * 12));
                group = group + 1;
            }
            proof {
                assert forall|s: int, g: int| 0 <= s < step + 1 && 0 <= g < 4 implies (#[trigger] movement_passes@[s * 4 + g]).0
                    == self.parameter_stride * s && movement_passes@[s * 4 + g].1 == 12 * g by {
                    if s == step {
                        assert(movement_passes@[step * 4 + g].0 == offset);
                    }
                }
            }
            step = step + 1;
        }
        self.epoch = first + MOVEMENT_STEPS_PER_TICK;
        CellularDynamicSweep { rollover, parameter_writes, compact_workgroups, movement_passes }
    }

    /// What a CPU write of `cell_count` cells from `cell_start` clears: their
    /// kinematics and processed epochs, and the activity of every tile from the
    /// first cell's to the last cell's, which it marks woken
    pub fn clear_cellular_dynamic_kinematics(&self, cell_start: usize, cell_count: usize) -> (clear: KinematicsClear)
        requires
            cell_start + cell_count >= 1,
            (cell_start + cell_count) * 16 <= usize::MAX,
        ensures
            clear.kinematics_offset == cell_start * 16,
            clear.kinematics_bytes == cell_count * 16,
            clear.epochs_offset == cell_start * 4,
            clear.epochs_bytes == cell_count * 4,
            clear.tiles_offset == cell_start / 64 * 4,
            clear.tile_words@ == Seq::new(
                if (cell_start + cell_count - 1) / 64 >= cell_start / 64 {
                    ((cell_start + cell_count - 1) / 64 - cell_start / 64 + 1) as nat
                } else {
                    0
                },
                |i: int| WOKEN_TILE,
            ),
    {
        let first_tile: usize = cell_start / 64;
        let last_tile: usize = (cell_start + cell_count - 1) / 64;
        let mut tile_words: Vec<u32> = Vec::new();
        let mut tile: usize = first_tile;
        while tile <= last_tile
            invariant
                first_tile <= tile <= last_tile + 1 || (tile == first_tile && first_tile > last_tile),
                last_tile < usize::MAX,
                tile_words@ == Seq::new((tile - first_tile) as nat, |i: int| WOKEN_TILE),
            decreases last_tile + 1 - tile,
        {
            tile_words.push(WOKEN_TILE);
            proof {
                assert(tile_words@ =~= Seq::new((tile + 1 - first_tile) as nat, |i: int| WOKEN_TILE));
            }
            tile = tile + 1;
        }
        proof {
            if last_tile < first_tile {
                assert(tile_words@ =~= Seq::<u32>::empty());
            }
        }
        KinematicsClear {
            kinematics_offset: cell_start as u64 * 16,
            kinematics_bytes: cell_count * 16,
            epochs_offset: cell_start as u64 * 4,
            epochs_bytes: cell_count * 4,
            tiles_offset: first_tile as u64 * 4,
            tile_words,
        }
    }
}

} // verus!
