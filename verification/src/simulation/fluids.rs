//! Host-side bookkeeping of the particle fluid solver: ring and bucket sizing, the
//! parameter block, edit uploads, particle records, and the order of its passes.

use vstd::prelude::*;
use crate::gpu_words::{encode_words_le, spec_words_le_bytes};
use crate::simulation::simulation_constants::{
    FLUID_EDIT_ERASE,
    MAXIMUM_MOVEMENT_CELLS,
    PBF_CONSTRAINT_ITERATION_COUNT,
    PBF_SUBSTEP_COUNT,
};
use crate::simulation::thermal_phase_transitions::{spec_workgroups, workgroups_for};
use crate::tiles::TileCoordinates;

verus! {

/// The particle support radius in quarter cells (2.5 cells)
pub const SUPPORT_RADIUS_QUARTER_CELLS: u32 = 10;

/// The largest position correction per constraint iteration in quarter cells (0.25 cells)
pub const MAXIMUM_CORRECTION_QUARTER_CELLS: u32 = 1;

/// The bit pattern of the support radius in cells, 2.5 as an IEEE 754 single
pub const SUPPORT_RADIUS_CELLS_BITS: u32 = 0x4020_0000;

/// The bit pattern of the particle radius in cells, 0.45 as an IEEE 754 single
pub const PARTICLE_RADIUS_CELLS_BITS: u32 = 0x3ee6_6666;

/// The buckets along one axis of `tiles` tiles: the axis' cells divided by the
/// support radius, rounded up
pub open spec fn spec_bucket_dimension(tiles: int) -> int {
    (tiles * 8 * 4 + SUPPORT_RADIUS_QUARTER_CELLS - 1) / (SUPPORT_RADIUS_QUARTER_CELLS as int)
}

/// One pass of the fluid solver
#[derive(Clone, Copy, Debug, PartialEq, Eq, Structural)]
pub enum FluidPass {
    ClassifyActive,
    Predict,
    ClearBuckets,
    InsertPredictedBuckets,
    Lambda,
    PositionCorrection,
    ApplyPositionCorrection,
    Commit,
    InsertBuckets,
    VelocitySmoothing,
    ApplyVelocitySmoothing,
    Raster,
    CellContact,
    ApplyCellContact,
    EditRemove,
    EditSpawn,
    EditClear,
    Export,
    Import,
}

/// The work of one export: compact the outgoing particles, then copy the count
/// word and every compacted record for readback
pub struct FluidExportPlan {
    pub passes: Vec<(FluidPass, u32)>,
    pub count_copy_size: u64,
    pub particles_destination_offset: u64,
    pub particles_copy_size: u64,
}

/// The work of one import: the count word written before the passes, the passes,
/// and the bytes of success flags copied back
pub struct FluidImportPlan {
    pub count_word: u32,
    pub passes: Vec<(FluidPass, u32)>,
    pub results_copy_size: u64,
}

/// What one fluid pass writes to the parameter block besides the solver's own sizes
pub struct FluidParameterInputs {
    pub active_origin: TileCoordinates,
    pub active_width: u16,
    pub active_height: u16,
    pub buffered_origin: TileCoordinates,
    pub buffered_width: u16,
    pub buffered_height: u16,
    pub ring_offset_x: u16,
    pub ring_offset_y: u16,
    pub streaming_origin: TileCoordinates,
    pub streaming_dimensions: [u16; 2],
    pub gravity_bits: [u32; 2],
    pub delta_time_bits: u32,
    pub sample_center_bits: [u32; 2],
    pub sample_parameter_bits: [u32; 2],
    pub sample_kind: u32,
}

/// One fluid edit: the ring cell it targets, the material it writes, and the bit
/// patterns of its amount and temperature
pub struct FluidEdit {
    pub cell: usize,
    pub material: u32,
    pub amount_bits: u32,
    pub temperature_bits: u32,
}

/// The dense per-cell edit fields uploaded for one edit flush
pub struct FluidEditFields {
    pub materials: Vec<u32>,
    pub amounts: Vec<u32>,
    pub temperatures: Vec<u32>,
}

/// Authoritative particle fluid solver bookkeeping
pub struct Fluids {
    pub buffered_cell_count: u32,
    pub particle_capacity: u32,
    pub bucket_dimensions: [u32; 2],
    pub bucket_count: u32,
}

/// The value of the last edit of `edits` at `cell`, or `default` when none targets it
pub open spec fn last_edit_value(edits: Seq<FluidEdit>, cell: int, default: u32, field: int) -> u32
    decreases edits.len(),
{
    if edits.len() == 0 {
        default
    } else if edits.last().cell == cell {
        if field == 0 {
            edits.last().material
        } else if field == 1 {
            edits.last().amount_bits
        } else {
            edits.last().temperature_bits
        }
    } else {
        last_edit_value(edits.drop_last(), cell, default, field)
    }
}

/// `count` repetitions of `block`
pub open spec fn repeated(block: Seq<(FluidPass, u32)>, count: nat) -> Seq<(FluidPass, u32)>
    decreases count,
{
    if count == 0 {
        Seq::empty()
    } else {
        repeated(block, (count - 1) as nat) + block
    }
}

/// One constraint iteration: rebuild the predicted buckets, then solve and apply
/// the position corrections
pub open spec fn constraint_iteration(particles: u32, buckets: u32) -> Seq<(FluidPass, u32)> {
    seq![
        (FluidPass::ClearBuckets, buckets),
        (FluidPass::InsertPredictedBuckets, particles),
        (FluidPass::Lambda, particles),
        (FluidPass::PositionCorrection, particles),
        (FluidPass::ApplyPositionCorrection, particles),
    ]
}

/// One substep: predict, run every constraint iteration, then commit
pub open spec fn substep(particles: u32, buckets: u32) -> Seq<(FluidPass, u32)> {
    seq![(FluidPass::Predict, particles)] + repeated(
        constraint_iteration(particles, buckets),
        PBF_CONSTRAINT_ITERATION_COUNT as nat,
    ) + seq![(FluidPass::Commit, particles)]
}

/// The passes of one simulation tick given the workgroups of a particle, bucket and
/// cell pass: classify, every substep, then rebuild buckets, smooth velocities,
/// rasterize, resolve cell contacts and rasterize again
pub open spec fn simulation_schedule(particles: u32, buckets: u32, cells: u32) -> Seq<(FluidPass, u32)> {
    seq![(FluidPass::ClassifyActive, particles)] + repeated(
        substep(particles, buckets),
        PBF_SUBSTEP_COUNT as nat,
    ) + seq![
        (FluidPass::ClearBuckets, buckets),
        (FluidPass::InsertBuckets, particles),
        (FluidPass::VelocitySmoothing, particles),
        (FluidPass::ApplyVelocitySmoothing, particles),
        (FluidPass::Raster, cells),
        (FluidPass::CellContact, cells),
        (FluidPass::ApplyCellContact, particles),
        (FluidPass::Raster, cells),
    ]
}

impl Fluids {
    /// The passes of one simulation tick, in order, with their workgroups
    pub fn simulation_passes(&self) -> (passes: Vec<(FluidPass, u32)>)
        ensures
            passes@ == simulation_schedule(
                spec_workgroups(self.particle_capacity as int) as u32,
                spec_workgroups(self.bucket_count as int) as u32,
                spec_workgroups(self.buffered_cell_count as int) as u32,
            ),
    {
        let particles: u32 = workgroups_for(self.particle_capacity);
        let buckets: u32 = workgroups_for(self.bucket_count);
        let cells: u32 = workgroups_for(self.buffered_cell_count);
        let mut passes: Vec<(FluidPass, u32)> = Vec::new();
        passes.push((FluidPass::ClassifyActive, particles));
        let ghost head = passes@;
        let mut step: u32 = 0;
        while step < PBF_SUBSTEP_COUNT
            invariant
                step <= PBF_SUBSTEP_COUNT,
                head == seq![(FluidPass::ClassifyActive, particles)],
                passes@ == head + repeated(substep(particles, buckets), step as nat),
            decreases PBF_SUBSTEP_COUNT - step,
        {
            let ghost before = passes@;
            passes.push((FluidPass::Predict, particles));
            let mut iteration: u32 = 0;
            while iteration < PBF_CONSTRAINT_ITERATION_COUNT
                invariant
                    iteration <= PBF_CONSTRAINT_ITERATION_COUNT,
                    passes@ == before + seq![(FluidPass::Predict, particles)] + repeated(
                        constraint_iteration(particles, buckets),
                        iteration as nat,
                    ),
                decreases PBF_CONSTRAINT_ITERATION_COUNT - iteration,
            {
                passes.push((FluidPass::ClearBuckets, buckets));
                passes.push((FluidPass::InsertPredictedBuckets, particles));
                passes.push((FluidPass::Lambda, particles));
                passes.push((FluidPass::PositionCorrection, particles));
                passes.push((FluidPass::ApplyPositionCorrection, particles));
                proof {
                    assert(repeated(constraint_iteration(particles, buckets), (iteration + 1) as nat)
                        == repeated(constraint_iteration(particles, buckets), iteration as nat)
                        + constraint_iteration(particles, buckets));
                    assert(passes@ =~= before + seq![(FluidPass::Predict, particles)] + repeated(
                        constraint_iteration(particles, buckets),
                        (iteration + 1) as nat,
                    ));
                }
                iteration = iteration + 1;
            }
            passes.push((FluidPass::Commit, particles));
            proof {
                assert(repeated(substep(particles, buckets), (step + 1) as nat) == repeated(
                    substep(particles, buckets),
                    step as nat,
                ) + substep(particles, buckets));
                assert(passes@ =~= head + repeated(substep(particles, buckets), (step + 1) as nat));
            }
            step = step + 1;
        }
        passes.push((FluidPass::ClearBuckets, buckets));
        passes.push((FluidPass::InsertBuckets, particles));
        passes.push((FluidPass::VelocitySmoothing, particles));
        passes.push((FluidPass::ApplyVelocitySmoothing, particles));
        passes.push((FluidPass::Raster, cells));
        passes.push((FluidPass::CellContact, cells));
        passes.push((FluidPass::ApplyCellContact, particles));
        passes.push((FluidPass::Raster, cells));
        proof {
            assert(passes@ =~= simulation_schedule(particles, buckets, cells));
        }
        passes
    }

    /// The solver for a ring of `buffered_width` by `buffered_height` tiles: one
    /// particle slot per cell, and buckets as wide as the support radius
    pub fn new(buffered_width: u16, buffered_height: u16) -> (fluids: Self)
        requires
            buffered_width * buffered_height * 64 <= u32::MAX,
        ensures
            fluids.buffered_cell_count == buffered_width * buffered_height * 64,
            fluids.particle_capacity == fluids.buffered_cell_count,
            fluids.bucket_dimensions[0] == spec_bucket_dimension(buffered_width as int),
            fluids.bucket_dimensions[1] == spec_bucket_dimension(buffered_height as int),
            fluids.bucket_count == fluids.bucket_dimensions[0] * fluids.bucket_dimensions[1],
    {
        let width: u32 = buffered_width as u32;
        let height: u32 = buffered_height as u32;
        proof {
            assert(width * height <= 0x400_0000);
        }
        let cells: u32 = width * height * 64;
        let columns: u32 = (width * 32 + 9) / 10;
        let rows: u32 = (height * 32 + 9) / 10;
        assert(columns * rows <= u32::MAX) by (nonlinear_arith)
            requires
                width * height <= 0x400_0000,
                width <= 0xffff,
                height <= 0xffff,
                columns == (width * 32 + 9) / 10,
                rows == (height * 32 + 9) / 10,
        {
            assert(columns * 10 <= width * 32 + 9);
            assert(rows * 10 <= height * 32 + 9);
            assert(columns * rows * 100 <= (width * 32 + 9) * (height * 32 + 9));
        }
        Fluids {
            buffered_cell_count: cells,
            particle_capacity: cells,
            bucket_dimensions: [columns, rows],
            bucket_count: columns * rows,
        }
    }

    /// The tiles of buffer that active movement and particle support need beyond the
    /// active area: twice the support radius plus the largest movement of one tick
    /// (its movement per substep and every constraint correction), in whole tiles
    pub fn minimum_buffer_tiles() -> (tiles: u8)
        ensures
            tiles == (2 * SUPPORT_RADIUS_QUARTER_CELLS + (MAXIMUM_MOVEMENT_CELLS * 4) as int
                / PBF_SUBSTEP_COUNT as int + MAXIMUM_CORRECTION_QUARTER_CELLS * PBF_CONSTRAINT_ITERATION_COUNT
                + 31) / 32,
            tiles == 1,
    {
        let quarter_cells: u32 = 2 * SUPPORT_RADIUS_QUARTER_CELLS + MAXIMUM_MOVEMENT_CELLS * 4
            / PBF_SUBSTEP_COUNT + MAXIMUM_CORRECTION_QUARTER_CELLS * PBF_CONSTRAINT_ITERATION_COUNT;
        ((quarter_cells + 31) / 32) as u8
    }

    /// The edit value that removes fluid without spawning it
    pub fn erase_edit() -> (edit: u32)
        ensures
            edit == FLUID_EDIT_ERASE,
    {
        FLUID_EDIT_ERASE
    }

    /// The number of authoritative particle slots
    pub fn particle_capacity(&self) -> (capacity: u32)
        ensures
            capacity == self.particle_capacity,
    {
        self.particle_capacity
    }

    /// The initial free-slot stack: every slot index in order, little-endian
    pub fn free_slot_bytes(&self) -> (bytes: Vec<u8>)
        requires
            self.particle_capacity * 4 <= usize::MAX,
        ensures
            bytes@ == spec_words_le_bytes(Seq::new(self.particle_capacity as nat, |i: int| i as u32)),
    {
        let mut slots: Vec<u32> = Vec::new();
        let mut i: u32 = 0;
        while i < self.particle_capacity
            invariant
                i <= self.particle_capacity,
                slots@ == Seq::new(i as nat, |j: int| j as u32),
            decreases self.particle_capacity - i,
        {
            slots.push(i);
            proof {
                assert(slots@ =~= Seq::new((i + 1) as nat, |j: int| j as u32));
            }
            i = i + 1;
        }
        encode_words_le(slots.as_slice())
    }

    /// The parameter block for `inputs`, word by word
    pub fn parameter_words(&self, inputs: &FluidParameterInputs) -> (words: [u32; 32])
        ensures
            words@ == seq![
                inputs.buffered_origin.x as u32,
                inputs.buffered_origin.y as u32,
                inputs.buffered_width as u32,
                inputs.buffered_height as u32,
                inputs.active_origin.x as u32,
                inputs.active_origin.y as u32,
                inputs.active_width as u32,
                inputs.active_height as u32,
                inputs.ring_offset_x as u32,
                inputs.ring_offset_y as u32,
                self.bucket_dimensions[0],
                self.bucket_dimensions[1],
                inputs.streaming_origin.x as u32,
                inputs.streaming_origin.y as u32,
                inputs.streaming_dimensions[0] as u32,
                inputs.streaming_dimensions[1] as u32,
                inputs.gravity_bits[0],
                inputs.gravity_bits[1],
                inputs.delta_time_bits,
                self.particle_capacity,
                self.buffered_cell_count,
                self.bucket_count,
                SUPPORT_RADIUS_CELLS_BITS,
                PARTICLE_RADIUS_CELLS_BITS,
                MAXIMUM_MOVEMENT_CELLS,
                0u32,
                inputs.sample_center_bits[0],
                inputs.sample_center_bits[1],
                inputs.sample_parameter_bits[0],
                inputs.sample_parameter_bits[1],
                inputs.sample_kind,
                0u32,
            ],
    {
        [
            inputs.buffered_origin.x as u32,
            inputs.buffered_origin.y as u32,
            inputs.buffered_width as u32,
            inputs.buffered_height as u32,
            inputs.active_origin.x as u32,
            inputs.active_origin.y as u32,
            inputs.active_width as u32,
            inputs.active_height as u32,
            inputs.ring_offset_x as u32,
            inputs.ring_offset_y as u32,
            self.bucket_dimensions[0],
            self.bucket_dimensions[1],
            inputs.streaming_origin.x as u32,
            inputs.streaming_origin.y as u32,
            inputs.streaming_dimensions[0] as u32,
            inputs.streaming_dimensions[1] as u32,
            inputs.gravity_bits[0],
            inputs.gravity_bits[1],
            inputs.delta_time_bits,
            self.particle_capacity,
            self.buffered_cell_count,
            self.bucket_count,
            SUPPORT_RADIUS_CELLS_BITS,
            PARTICLE_RADIUS_CELLS_BITS,
            MAXIMUM_MOVEMENT_CELLS,
            0,
            inputs.sample_center_bits[0],
            inputs.sample_center_bits[1],
            inputs.sample_parameter_bits[0],
            inputs.sample_parameter_bits[1],
            inputs.sample_kind,
            0,
        ]
    }

    /// The dense edit fields of one flush: each cell holds the material, amount and
    /// temperature of the last edit that targets it, or no material and zero bits
    pub fn edit_fields(&self, edits: &[FluidEdit], null_material: u32) -> (fields: FluidEditFields)
        requires
            forall|e: int| 0 <= e < edits@.len() ==> (#[trigger] edits@[e]).cell < self.buffered_cell_count,
        ensures
            fields.materials.len() == self.buffered_cell_count,
            fields.amounts.len() == self.buffered_cell_count,
            fields.temperatures.len() == self.buffered_cell_count,
            forall|c: int|
                0 <= c < self.buffered_cell_count ==> #[trigger] fields.materials@[c] == last_edit_value(
                    edits@,
                    c,
                    null_material,
                    0,
                ) && fields.amounts@[c] == last_edit_value(edits@, c, 0, 1)
                    && fields.temperatures@[c] == last_edit_value(edits@, c, 0, 2),
    {
        let cells: usize = self.buffered_cell_count as usize;
        let mut materials: Vec<u32> = Vec::new();
        let mut amounts: Vec<u32> = Vec::new();
        let mut temperatures: Vec<u32> = Vec::new();
        let mut c: usize = 0;
        while c < cells
            invariant
                cells == self.buffered_cell_count,
                c <= cells,
                materials.len() == c,
                amounts.len() == c,
                temperatures.len() == c,
                forall|k: int| 0 <= k < c ==> #[trigger] materials@[k] == null_material && amounts@[k] == 0
                    && temperatures@[k] == 0,
            decreases cells - c,
        {
            materials.push(null_material);
            amounts.push(0);
            temperatures.push(0);
            c = c + 1;
        }
        let mut e: usize = 0;
        while e < edits.len()
            invariant
                cells == self.buffered_cell_count,
                e <= edits@.len(),
                forall|f: int| 0 <= f < edits@.len() ==> (#[trigger] edits@[f]).cell < self.buffered_cell_count,
                materials.len() == cells,
                amounts.len() == cells,
                temperatures.len() == cells,
                forall|k: int|
                    0 <= k < cells ==> #[trigger] materials@[k] == last_edit_value(
                        edits@.take(e as int),
                        k,
                        null_material,
                        0,
                    ) && amounts@[k] == last_edit_value(edits@.take(e as int), k, 0, 1)
                        && temperatures@[k] == last_edit_value(edits@.take(e as int), k, 0, 2),
            decreases edits@.len() - e,
        {
            let edit: &FluidEdit = &edits[e];
            materials.set(edit.cell, edit.material);
            amounts.set(edit.cell, edit.amount_bits);
            temperatures.set(edit.cell, edit.temperature_bits);
            proof {
                assert(edits@.take(e + 1).drop_last() =~= edits@.take(e as int));
            }
            e = e + 1;
        }
        proof {
            assert(edits@.take(e as int) =~= edits@);
        }
        FluidEditFields { materials, amounts, temperatures }
    }

    /// Where and what to write when committing a particle into reserved `slot`: its
    /// 40-byte record at `slot * 40`, or nothing when `slot` lies past the capacity
    pub fn commit_reserved_particle(
        &self,
        slot: u32,
        material: u32,
        position_bits: [u32; 2],
        velocity_bits: [u32; 2],
        amount_bits: u32,
        temperature_bits: u32,
    ) -> (commit: Option<(u64, [u32; 10])>)
        ensures
            slot >= self.particle_capacity ==> commit is None,
            slot < self.particle_capacity ==> (commit matches Some((offset, record)) && offset == slot * 40
                && record@ == seq![
                material,
                1u32,
                position_bits[0],
                position_bits[1],
                velocity_bits[0],
                velocity_bits[1],
                0u32,
                0u32,
                amount_bits,
                temperature_bits,
            ]),
    {
        if slot >= self.particle_capacity {
            return None;
        }
        Some(
            (
                slot as u64 * 40,
                [
                    material,
                    1,
                    position_bits[0],
                    position_bits[1],
                    velocity_bits[0],
                    velocity_bits[1],
                    0,
                    0,
                    amount_bits,
                    temperature_bits,
                ],
            ),
        )
    }

    /// The passes that rebuild buckets and derived cells, with their workgroups
    pub fn rebuild_passes(&self) -> (passes: Vec<(FluidPass, u32)>)
        ensures
            passes@ == seq![
                (FluidPass::ClearBuckets, spec_workgroups(self.bucket_count as int) as u32),
                (FluidPass::InsertBuckets, spec_workgroups(self.particle_capacity as int) as u32),
                (FluidPass::Raster, spec_workgroups(self.buffered_cell_count as int) as u32),
            ],
    {
        let mut passes: Vec<(FluidPass, u32)> = Vec::new();
        passes.push((FluidPass::ClearBuckets, workgroups_for(self.bucket_count)));
        passes.push((FluidPass::InsertBuckets, workgroups_for(self.particle_capacity)));
        passes.push((FluidPass::Raster, workgroups_for(self.buffered_cell_count)));
        passes
    }

    /// The passes of one edit flush, with their workgroups: remove, spawn and clear,
    /// then the rebuild
    pub fn edit_passes(&self) -> (passes: Vec<(FluidPass, u32)>)
        ensures
            passes@ == seq![
                (FluidPass::EditRemove, spec_workgroups(self.particle_capacity as int) as u32),
                (FluidPass::EditSpawn, spec_workgroups(self.buffered_cell_count as int) as u32),
                (FluidPass::EditClear, spec_workgroups(self.buffered_cell_count as int) as u32),
                (FluidPass::ClearBuckets, spec_workgroups(self.bucket_count as int) as u32),
                (FluidPass::InsertBuckets, spec_workgroups(self.particle_capacity as int) as u32),
                (FluidPass::Raster, spec_workgroups(self.buffered_cell_count as int) as u32),
            ],
    {
        let mut passes: Vec<(FluidPass, u32)> = Vec::new();
        passes.push((FluidPass::EditRemove, workgroups_for(self.particle_capacity)));
        passes.push((FluidPass::EditSpawn, workgroups_for(self.buffered_cell_count)));
        passes.push((FluidPass::EditClear, workgroups_for(self.buffered_cell_count)));
        passes.push((FluidPass::ClearBuckets, workgroups_for(self.bucket_count)));
        passes.push((FluidPass::InsertBuckets, workgroups_for(self.particle_capacity)));
        passes.push((FluidPass::Raster, workgroups_for(self.buffered_cell_count)));
        passes
    }

    /// The passes of an edit flush the accelerator queued itself, each with the byte
    /// offset of its indirect dispatch arguments: one three-word record per pass,
    /// filled by a single preparing workgroup beforehand
    pub fn gpu_edit_passes() -> (passes: Vec<(FluidPass, u64)>)
        ensures
            passes@ == seq![
                (FluidPass::EditRemove, 0u64),
                (FluidPass::EditSpawn, 12u64),
                (FluidPass::EditClear, 24u64),
                (FluidPass::ClearBuckets, 36u64),
                (FluidPass::InsertBuckets, 48u64),
                (FluidPass::Raster, 60u64),
            ],
            forall|k: int| 0 <= k < passes@.len() ==> #[trigger] passes@[k].1 == 12 * k,
    {
        let mut passes: Vec<(FluidPass, u64)> = Vec::new();
        passes.push((FluidPass::EditRemove, 0));
        passes.push((FluidPass::EditSpawn, 12));
        passes.push((FluidPass::EditClear, 24));
        passes.push((FluidPass::ClearBuckets, 36));
        passes.push((FluidPass::InsertBuckets, 48));
        passes.push((FluidPass::Raster, 60));
        passes
    }

    /// The export of outgoing particles: one pass over every slot, the count word
    /// copied to the start of the download and every record copied after its
    /// 16-byte header
    pub fn export_plan(&self) -> (plan: FluidExportPlan)
        ensures
            plan.passes@ == seq![(FluidPass::Export, spec_workgroups(self.particle_capacity as int) as u32)],
            plan.count_copy_size == 4,
            plan.particles_destination_offset == 16,
            plan.particles_copy_size == self.particle_capacity * 40,
    {
        let mut passes: Vec<(FluidPass, u32)> = Vec::new();
        passes.push((FluidPass::Export, workgroups_for(self.particle_capacity)));
        FluidExportPlan {
            passes,
            count_copy_size: 4,
            particles_destination_offset: 16,
            particles_copy_size: self.particle_capacity as u64 * 40,
        }
    }

    /// The import of `particle_count` dormant particles: their count as one word
    /// (truncated to 32 bits), one pass over them and the rebuild, and one 4-byte
    /// success flag per particle copied back
    pub fn import_plan(&self, particle_count: usize) -> (plan: FluidImportPlan)
        requires
            particle_count * 4 <= u64::MAX,
        ensures
            plan.count_word == particle_count as u32,
            plan.passes@ == seq![
                (FluidPass::Import, spec_workgroups(plan.count_word as int) as u32),
                (FluidPass::ClearBuckets, spec_workgroups(self.bucket_count as int) as u32),
                (FluidPass::InsertBuckets, spec_workgroups(self.particle_capacity as int) as u32),
                (FluidPass::Raster, spec_workgroups(self.buffered_cell_count as int) as u32),
            ],
            plan.results_copy_size == particle_count * 4,
    {
        let count_word: u32 = #[verifier::truncate] (particle_count as u32);
        let mut passes: Vec<(FluidPass, u32)> = Vec::new();
        passes.push((FluidPass::Import, workgroups_for(count_word)));
        passes.push((FluidPass::ClearBuckets, workgroups_for(self.bucket_count)));
        passes.push((FluidPass::InsertBuckets, workgroups_for(self.particle_capacity)));
        passes.push((FluidPass::Raster, workgroups_for(self.buffered_cell_count)));
        FluidImportPlan { count_word, passes, results_copy_size: particle_count as u64 * 4 }
    }
}

} // verus!
