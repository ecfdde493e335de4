//! Host-side state of the cellular pressure solver: buffer sizing, rigid body
//! capacity growth, the parameter block, dispatch sizes, and the rigid reaction
//! readback bookkeeping of each tick.

use vstd::prelude::*;
use crate::gpu_words::{encode_words_le, lemma_word_of_image, spec_word_at, spec_words_le_bytes};
use crate::simulation::rigid_granular_readback_status::RigidGranularReadbackStatus;
use crate::simulation::simulation_constants::{INITIAL_RIGID_BODY_CAPACITY, RIGID_REACTION_READBACK_SLOT_COUNT};
use crate::simulation::thermal_phase_transitions::{spec_workgroups, workgroups_for};
use crate::simulation_cellulars::cellular_pressure_readback::{
    available_slots, current_batches, sequence_after, ReactionReadbackClaim, RigidReactionReadback,
};
use crate::simulation::rigid_granular_reaction_batch::RigidGranularReactionBatch;
use crate::simulation_cellulars::cellular_pressure_simulation::{
    ReactionReadbackLayout,
    fracture_word_count,
    reaction_readback_layout,
    spec_reaction_readback_layout,
};
use crate::tiles::{CellCoordinates, TileCoordinates};

verus! {

/// The bit pattern of the pressure damage rate, 10.0 as an IEEE 754 single
pub const PRESSURE_DAMAGE_RATE_BITS: u32 = 0x4120_0000;

/// Bytes of each per-cell pressure record (four 32-bit lanes)
pub const PRESSURE_RECORD_SIZE: usize = 16;

/// Whether `n` is a power of two
pub open spec fn is_power_of_two(n: int) -> bool
    decreases n,
{
    if n == 1 {
        true
    } else if n >= 2 && n % 2 == 0 {
        is_power_of_two(n / 2)
    } else {
        false
    }
}

/// A power of two above another power of two is at least twice it
proof fn lemma_power_of_two_gap(larger: int, smaller: int)
    requires
        is_power_of_two(larger),
        is_power_of_two(smaller),
        larger > smaller,
    ensures
        larger >= 2 * smaller,
    decreases larger,
{
    if smaller >= 2 {
        lemma_power_of_two_gap(larger / 2, smaller / 2);
    }
}

/// The smallest power of two that is at least `count`
pub fn next_power_of_two(count: usize) -> (power: usize)
    requires
        count <= usize::MAX / 2 + 1,
    ensures
        is_power_of_two(power as int),
        power >= count,
        power == 1 || power / 2 < count,
{
    let mut power: usize = 1;
    while power < count
        invariant
            count <= usize::MAX / 2 + 1,
            is_power_of_two(power as int),
            power == 1 || power / 2 < count,
            1 <= power,
        decreases usize::MAX - power,
    {
        assert((power * 2) / 2 == power);
        assert((power * 2) % 2 == 0);
        power = power * 2;
    }
    power
}

/// The staging slots allocated with a rigid body capacity: every one available
pub open spec fn fresh_reaction_slots() -> Seq<RigidGranularReadbackStatus> {
    Seq::new(RIGID_REACTION_READBACK_SLOT_COUNT as nat, |i: int| RigidGranularReadbackStatus::Available)
}

/// Every slot a capacity allocates is available, so at most three readbacks can be
/// in flight after it
pub proof fn lemma_fresh_slots_available()
    ensures
        available_slots(fresh_reaction_slots()) == RIGID_REACTION_READBACK_SLOT_COUNT,
{
    let fresh = fresh_reaction_slots();
    assert(fresh.drop_last().drop_last().drop_last() =~= Seq::<RigidGranularReadbackStatus>::empty());
    reveal_with_fuel(available_slots, 4);
}

/// What one cellular pressure tick or impulse writes to the parameter block
pub struct PressureParameterInputs {
    pub origin: TileCoordinates,
    pub width: u16,
    pub height: u16,
    pub ring_x: u16,
    pub ring_y: u16,
    /// Bit pattern of the impulse center's x coordinate, at the cell's middle
    pub center_x_bits: u32,
    /// Bit pattern of the impulse center's y coordinate, at the cell's middle
    pub center_y_bits: u32,
    pub radius_bits: u32,
    pub strength_bits: u32,
    pub delta_time_bits: u32,
    pub gravity_bits: [u32; 2],
    pub rigid_body_count: u32,
    pub rigid_cell_count: u32,
    pub impulse_minimum: CellCoordinates,
    pub impulse_size: [u32; 2],
}

/// How many workgroups each stage of one pressure tick dispatches
pub struct PressureDispatch {
    /// Clearing the active-tile mask, and compacting it
    pub tile_mask_workgroups: u32,
    /// Marking active tiles: one workgroup per tile
    pub tile_workgroups: u32,
    /// Per rigid body stages (at least one workgroup)
    pub rigid_body_workgroups: u32,
    /// Per rigid cell stages (at least one workgroup)
    pub rigid_cell_workgroups: u32,
}

/// Why a pressure tick could not be planned
#[derive(Clone, Copy, Debug, PartialEq, Eq, Structural)]
pub enum PressureCountError {
    /// More rigid bodies than 32-bit indices can name
    RigidBodyCount,
    /// More rigid cells than 32-bit indices can name
    RigidCellCount,
}

impl PressureCountError {
    /// The error's message
    pub fn message(&self) -> (text: &'static str)
        ensures
            text@ == match self {
                PressureCountError::RigidBodyCount => "Rigid body count exceeds GPU indexing range"@,
                PressureCountError::RigidCellCount => "Rigid cell count exceeds GPU indexing range"@,
            },
    {
        match self {
            PressureCountError::RigidBodyCount => "Rigid body count exceeds GPU indexing range",
            PressureCountError::RigidCellCount => "Rigid cell count exceeds GPU indexing range",
        }
    }
}

/// Everything one pressure tick does besides running its pipelines
pub struct PressureTick {
    /// The parameter block, word by word
    pub parameters: [u32; 24],
    /// Whether the accumulated rigid reactions are cleared because the topology changed
    pub clear_reactions: bool,
    pub dispatch: PressureDispatch,
    /// Which staging slot, if any, receives this tick's rigid reactions
    pub claim: ReactionReadbackClaim,
    /// Where the reactions go in the claimed staging slot
    pub layout: Option<ReactionReadbackLayout>,
}

/// The byte range of the per-cell pressure fields that a transient clear zeroes
pub struct TransientClear {
    pub byte_offset: u64,
    pub byte_count: usize,
}

/// A radial impulse clamped to the simulated grid
pub struct RadialImpulsePlan {
    /// The lowest cell of the impulse's clamped box
    pub minimum: CellCoordinates,
    /// Columns and rows of the clamped box
    pub size: [u32; 2],
    /// Workgroups of the impulse pass: one lane per cell of the box
    pub workgroups: u64,
}

/// The parameter block words, in binding order
pub open spec fn spec_pressure_parameters(
    inputs: PressureParameterInputs,
    tick: u32,
    buffered_cell_count: u32,
    gas_count: u32,
) -> Seq<u32> {
    seq![
        inputs.origin.x as u32,
        inputs.origin.y as u32,
        inputs.width as u32,
        inputs.height as u32,
        inputs.ring_x as u32,
        inputs.ring_y as u32,
        inputs.center_x_bits,
        inputs.center_y_bits,
        inputs.radius_bits,
        inputs.strength_bits,
        inputs.delta_time_bits,
        tick,
        buffered_cell_count,
        PRESSURE_DAMAGE_RATE_BITS,
        gas_count,
        inputs.rigid_body_count,
        inputs.gravity_bits[0],
        inputs.gravity_bits[1],
        inputs.rigid_cell_count,
        0u32,
        inputs.impulse_minimum.x as u32,
        inputs.impulse_minimum.y as u32,
        inputs.impulse_size[0],
        inputs.impulse_size[1],
    ]
}

/// What the caller supplies for one pressure tick
pub struct PressureTickInputs {
    pub origin: TileCoordinates,
    pub width: u16,
    pub height: u16,
    pub ring_x: u16,
    pub ring_y: u16,
    pub delta_time_bits: u32,
    pub gravity_bits: [u32; 2],
    pub rigid_body_count: usize,
    pub rigid_cell_count: usize,
    pub rigid_topology_revision: u64,
}

/// The parameter inputs of a pressure tick: no impulse, and the rigid counts
pub open spec fn spec_tick_parameter_inputs(inputs: PressureTickInputs) -> PressureParameterInputs {
    PressureParameterInputs {
        origin: inputs.origin,
        width: inputs.width,
        height: inputs.height,
        ring_x: inputs.ring_x,
        ring_y: inputs.ring_y,
        center_x_bits: 0,
        center_y_bits: 0,
        radius_bits: 0,
        strength_bits: 0,
        delta_time_bits: inputs.delta_time_bits,
        gravity_bits: inputs.gravity_bits,
        rigid_body_count: inputs.rigid_body_count as u32,
        rigid_cell_count: inputs.rigid_cell_count as u32,
        impulse_minimum: CellCoordinates { x: 0, y: 0 },
        impulse_size: [0u32, 0u32],
    }
}

/// The dispatch sizes of a pressure tick over `buffered_cell_count` cells
pub open spec fn spec_pressure_dispatch(
    buffered_cell_count: u32,
    rigid_body_count: int,
    rigid_cell_count: int,
) -> (int, int, int, int) {
    let tiles = buffered_cell_count / 64;
    (
        spec_workgroups(tiles as int),
        tiles as int,
        spec_workgroups(if rigid_body_count == 0 { 1 } else { rigid_body_count }),
        spec_workgroups(if rigid_cell_count == 0 { 1 } else { rigid_cell_count }),
    )
}

/// What the caller supplies for one radial impulse: the float parameters as bit
/// patterns, and the impulse's box before clamping (its floored lowest and ceiled
/// highest cell)
pub struct RadialImpulseInputs {
    pub origin: TileCoordinates,
    pub width: u16,
    pub height: u16,
    pub ring_x: u16,
    pub ring_y: u16,
    pub center_x_bits: u32,
    pub center_y_bits: u32,
    pub radius_bits: u32,
    pub strength_bits: u32,
    pub unclamped_minimum: CellCoordinates,
    pub unclamped_maximum: CellCoordinates,
}

/// The larger of two integers
pub open spec fn spec_max(a: int, b: int) -> int {
    if a < b { b } else { a }
}

/// The smaller of two integers
pub open spec fn spec_min(a: int, b: int) -> int {
    if a < b { a } else { b }
}

/// Applies transient directional cellular pressure and static integrity damage
pub struct CellularPressure {
    pub buffered_cell_count: u32,
    pub gas_count: u32,
    pub tick: u32,
    pub rigid_body_capacity: usize,
    pub rigid_fracture_word_count: u64,
    /// Ordering of asynchronously completed rigid reaction batches
    pub readback: RigidReactionReadback,
}

impl CellularPressure {
    /// Whether the state is consistent
    pub open spec fn wf(&self) -> bool {
        &&& self.readback.wf()
        &&& self.rigid_fracture_word_count == (self.buffered_cell_count as int + 31) / 32
        &&& self.rigid_body_capacity <= 0x0100_0000_0000_0000
    }

    /// The host state of a solver over `buffered_cell_count` ring-buffered cells
    pub fn new(gas_count: u32, buffered_cell_count: usize) -> (pressure: Self)
        requires
            buffered_cell_count <= u32::MAX,
        ensures
            pressure.wf(),
            pressure.buffered_cell_count == buffered_cell_count,
            pressure.gas_count == gas_count,
            pressure.tick == 0,
            pressure.rigid_body_capacity == INITIAL_RIGID_BODY_CAPACITY,
            pressure.readback.spec_sequence_next() == 0,
            pressure.readback.spec_sequence_apply_next() == 0,
            pressure.readback.spec_topology_revision() == u64::MAX,
    {
        let cells: u32 = buffered_cell_count as u32;
        CellularPressure {
            buffered_cell_count: cells,
            gas_count,
            tick: 0,
            rigid_body_capacity: INITIAL_RIGID_BODY_CAPACITY,
            rigid_fracture_word_count: fracture_word_count(cells),
            readback: RigidReactionReadback::new(),
        }
    }

    /// Tiles of the ring buffer: one per 64 cells
    pub fn buffered_tile_count(&self) -> (tiles: u32)
        ensures
            tiles == self.buffered_cell_count / 64,
    {
        self.buffered_cell_count / 64
    }

    /// Bytes of each rigid reaction staging buffer at the current capacity: 128
    /// bytes per body, the fracture count word, and the fracture bitmap
    pub fn readback_slot_size(&self) -> (size: u64)
        requires
            self.wf(),
        ensures
            size == self.rigid_body_capacity * 128 + 4 + self.rigid_fracture_word_count * 4,
    {
        self.rigid_body_capacity as u64 * 128 + 4 + self.rigid_fracture_word_count * 4
    }

    /// Grows the rigid body capacity to the next power of two when `count` bodies no
    /// longer fit; growing reallocates every staging slot as available and forgets
    /// every held reaction batch
    pub fn ensure_rigid_body_capacity(&mut self, slots: &mut Vec<RigidGranularReadbackStatus>, count: usize) -> (grown: bool)
        requires
            old(self).wf(),
            count <= usize::MAX / 2 + 1,
            count <= 0x0100_0000_0000_0000,
        ensures
            final(self).wf(),
            grown == (count > old(self).rigid_body_capacity),
            final(self).buffered_cell_count == old(self).buffered_cell_count,
            final(self).gas_count == old(self).gas_count,
            final(self).tick == old(self).tick,
            final(self).rigid_fracture_word_count == old(self).rigid_fracture_word_count,
            !grown ==> final(self).rigid_body_capacity == old(self).rigid_body_capacity
                && final(self).readback == old(self).readback && final(slots)@ == old(slots)@,
            grown ==> {
                &&& final(slots)@ == fresh_reaction_slots()
                &&& is_power_of_two(final(self).rigid_body_capacity as int)
                &&& final(self).rigid_body_capacity >= count
                &&& final(self).rigid_body_capacity / 2 < count
                &&& final(self).readback.completed_batches() == Map::<u64, RigidGranularReactionBatch>::empty()
                &&& final(self).readback.spec_sequence_apply_next()
                    == old(self).readback.spec_sequence_next()
                &&& final(self).readback.spec_sequence_next() == old(self).readback.spec_sequence_next()
                &&& final(self).readback.spec_topology_revision() == u64::MAX
            },
    {
        if count <= self.rigid_body_capacity {
            return false;
        }
        let capacity: usize = next_power_of_two(count);
        proof {
            if capacity > 0x0100_0000_0000_0000 {
                reveal_with_fuel(is_power_of_two, 58);
                assert(is_power_of_two(0x0100_0000_0000_0000));
                lemma_power_of_two_gap(capacity as int, 0x0100_0000_0000_0000);
            }
        }
        self.rigid_body_capacity = capacity;
        self.readback.reset_for_new_capacity();
        let mut fresh: Vec<RigidGranularReadbackStatus> = Vec::new();
        let mut index: usize = 0;
        while index < RIGID_REACTION_READBACK_SLOT_COUNT
            invariant
                index <= RIGID_REACTION_READBACK_SLOT_COUNT,
                fresh@ == Seq::new(index as nat, |i: int| RigidGranularReadbackStatus::Available),
            decreases RIGID_REACTION_READBACK_SLOT_COUNT - index,
        {
            fresh.push(RigidGranularReadbackStatus::Available);
            proof {
                assert(fresh@ =~= Seq::new((index + 1) as nat, |i: int| RigidGranularReadbackStatus::Available));
            }
            index = index + 1;
        }
        *slots = fresh;
        true
    }

    /// The parameter block for `inputs` at the current tick
    pub fn parameter_words(&self, inputs: &PressureParameterInputs) -> (words: [u32; 24])
        ensures
            words@ == spec_pressure_parameters(*inputs, self.tick, self.buffered_cell_count, self.gas_count),
    {
        [
            inputs.origin.x as u32,
            inputs.origin.y as u32,
            inputs.width as u32,
            inputs.height as u32,
            inputs.ring_x as u32,
            inputs.ring_y as u32,
            inputs.center_x_bits,
            inputs.center_y_bits,
            inputs.radius_bits,
            inputs.strength_bits,
            inputs.delta_time_bits,
            self.tick,
            self.buffered_cell_count,
            PRESSURE_DAMAGE_RATE_BITS,
            self.gas_count,
            inputs.rigid_body_count,
            inputs.gravity_bits[0],
            inputs.gravity_bits[1],
            inputs.rigid_cell_count,
            0,
            inputs.impulse_minimum.x as u32,
            inputs.impulse_minimum.y as u32,
            inputs.impulse_size[0],
            inputs.impulse_size[1],
        ]
    }

    /// The little-endian bytes of the parameter block for `inputs`
    pub fn parameter_bytes(&self, inputs: &PressureParameterInputs) -> (bytes: Vec<u8>)
        ensures
            bytes@ == spec_words_le_bytes(
                spec_pressure_parameters(*inputs, self.tick, self.buffered_cell_count, self.gas_count),
            ),
    {
        let words: [u32; 24] = self.parameter_words(inputs);
        encode_words_le(words.as_slice())
    }

    /// Plans one fixed pressure tick.
    ///
    /// The rigid body capacity grows first when the bodies no longer fit, which
    /// reallocates every staging slot as available and forgets the held batches and
    /// the current topology. Counts that do not fit 32-bit indices are refused. A
    /// change of rigid topology clears the accumulated reactions and drops held
    /// batches of other revisions. The first
    /// available staging slot, if any and if there is a rigid body, receives this
    /// tick's reactions. Every planned tick advances the tick counter.
    pub fn simulate(
        &mut self,
        slots: &mut Vec<RigidGranularReadbackStatus>,
        inputs: &PressureTickInputs,
    ) -> (planned: Result<PressureTick, PressureCountError>)
        requires
            old(self).wf(),
            inputs.rigid_body_count <= usize::MAX / 2 + 1,
            inputs.rigid_body_count <= 0x0100_0000_0000_0000,
        ensures
            final(self).wf(),
            final(self).buffered_cell_count == old(self).buffered_cell_count,
            final(self).gas_count == old(self).gas_count,
            inputs.rigid_body_count > old(self).rigid_body_capacity ==> final(self).rigid_body_capacity
                >= inputs.rigid_body_count && is_power_of_two(final(self).rigid_body_capacity as int)
                && final(self).rigid_body_capacity / 2 < inputs.rigid_body_count,
            inputs.rigid_body_count <= old(self).rigid_body_capacity ==> final(self).rigid_body_capacity
                == old(self).rigid_body_capacity,
            inputs.rigid_body_count > u32::MAX ==> planned == Err::<PressureTick, PressureCountError>(
                PressureCountError::RigidBodyCount,
            ),
            inputs.rigid_body_count <= u32::MAX && inputs.rigid_cell_count > u32::MAX ==> planned
                == Err::<PressureTick, PressureCountError>(PressureCountError::RigidCellCount),
            ({
                let grown = inputs.rigid_body_count > old(self).rigid_body_capacity;
                let slots0 = if grown { fresh_reaction_slots() } else { old(slots)@ };
                let held0 = if grown {
                    Map::<u64, RigidGranularReactionBatch>::empty()
                } else {
                    old(self).readback.completed_batches()
                };
                let apply0 = if grown {
                    old(self).readback.spec_sequence_next()
                } else {
                    old(self).readback.spec_sequence_apply_next()
                };
                let revision0 = if grown { u64::MAX } else { old(self).readback.spec_topology_revision() };
                &&& planned is Err ==> {
                    &&& final(self).tick == old(self).tick
                    &&& final(slots)@ == slots0
                    &&& final(self).readback.completed_batches() == held0
                    &&& final(self).readback.spec_sequence_apply_next() == apply0
                    &&& final(self).readback.spec_sequence_next() == old(self).readback.spec_sequence_next()
                    &&& final(self).readback.spec_topology_revision() == revision0
                }
                &&& planned matches Ok(tick) ==> {
                    &&& final(self).readback.spec_sequence_next() == if tick.claim is Claimed {
                        sequence_after(old(self).readback.spec_sequence_next(), 1)
                    } else {
                        old(self).readback.spec_sequence_next()
                    }
                    &&& final(self).readback.completed_batches() == if tick.clear_reactions {
                        current_batches(held0, inputs.rigid_topology_revision)
                    } else {
                        held0
                    }
                    &&& final(self).readback.spec_sequence_apply_next() == if tick.clear_reactions {
                        old(self).readback.spec_sequence_next()
                    } else {
                        apply0
                    }
                    &&& match tick.claim {
                        ReactionReadbackClaim::NoBodies => inputs.rigid_body_count == 0 && final(slots)@
                            == slots0 && tick.layout is None,
                        ReactionReadbackClaim::Saturated => {
                            &&& inputs.rigid_body_count != 0
                            &&& forall|i: int|
                                0 <= i < slots0.len() ==> !(#[trigger] slots0[i] is Available)
                            &&& final(slots)@ == slots0
                            &&& tick.layout is None
                        },
                        ReactionReadbackClaim::Claimed { slot, sequence } => {
                            &&& inputs.rigid_body_count != 0
                            &&& slot < slots0.len()
                            &&& slots0[slot as int] is Available
                            &&& forall|i: int| 0 <= i < slot ==> !(#[trigger] slots0[i] is Available)
                            &&& final(slots)@ == slots0.update(
                                slot as int,
                                RigidGranularReadbackStatus::Mapping,
                            )
                            &&& sequence == old(self).readback.spec_sequence_next()
                            &&& tick.layout == Some(
                                spec_reaction_readback_layout(
                                    inputs.rigid_body_count as int,
                                    old(self).rigid_fracture_word_count as int,
                                ),
                            )
                        },
                    }
                }
            }),
            inputs.rigid_body_count <= u32::MAX && inputs.rigid_cell_count <= u32::MAX ==> (
            planned matches Ok(tick) && {
                let dispatch = spec_pressure_dispatch(
                    old(self).buffered_cell_count,
                    inputs.rigid_body_count as int,
                    inputs.rigid_cell_count as int,
                );
                &&& tick.parameters@ == spec_pressure_parameters(
                    spec_tick_parameter_inputs(*inputs),
                    old(self).tick,
                    old(self).buffered_cell_count,
                    old(self).gas_count,
                )
                &&& tick.clear_reactions == (inputs.rigid_topology_revision != if inputs.rigid_body_count
                    > old(self).rigid_body_capacity {
                    u64::MAX
                } else {
                    old(self).readback.spec_topology_revision()
                })
                &&& final(self).readback.spec_topology_revision() == inputs.rigid_topology_revision
                &&& tick.dispatch.tile_mask_workgroups == dispatch.0
                &&& tick.dispatch.tile_workgroups == dispatch.1
                &&& tick.dispatch.rigid_body_workgroups == dispatch.2
                &&& tick.dispatch.rigid_cell_workgroups == dispatch.3
                &&& final(self).tick == (old(self).tick + 1) % 0x1_0000_0000
            }),
    {
        self.ensure_rigid_body_capacity(slots, inputs.rigid_body_count);
        if inputs.rigid_body_count > u32::MAX as usize {
            return Err(PressureCountError::RigidBodyCount);
        }
        if inputs.rigid_cell_count > u32::MAX as usize {
            return Err(PressureCountError::RigidCellCount);
        }
        let rigid_body_count: u32 = inputs.rigid_body_count as u32;
        let rigid_cell_count: u32 = inputs.rigid_cell_count as u32;
        let parameter_inputs = PressureParameterInputs {
            origin: inputs.origin,
            width: inputs.width,
            height: inputs.height,
            ring_x: inputs.ring_x,
            ring_y: inputs.ring_y,
            center_x_bits: 0,
            center_y_bits: 0,
            radius_bits: 0,
            strength_bits: 0,
            delta_time_bits: inputs.delta_time_bits,
            gravity_bits: inputs.gravity_bits,
            rigid_body_count,
            rigid_cell_count,
            impulse_minimum: CellCoordinates { x: 0, y: 0 },
            impulse_size: [0, 0],
        };
        let parameters: [u32; 24] = self.parameter_words(&parameter_inputs);
        let changed: bool = self.readback.synchronize_topology(inputs.rigid_topology_revision);
        let tiles: u32 = self.buffered_cell_count / 64;
        let dispatch = PressureDispatch {
            tile_mask_workgroups: workgroups_for(tiles),
            tile_workgroups: tiles,
            rigid_body_workgroups: workgroups_for(if rigid_body_count == 0 { 1 } else { rigid_body_count }),
            rigid_cell_workgroups: workgroups_for(if rigid_cell_count == 0 { 1 } else { rigid_cell_count }),
        };
        let claim: ReactionReadbackClaim = self.readback.claim_readback(slots, rigid_body_count);
        let layout: Option<ReactionReadbackLayout> = match claim {
            ReactionReadbackClaim::Claimed { .. } => Some(
                reaction_readback_layout(rigid_body_count, self.rigid_fracture_word_count),
            ),
            _ => None,
        };
        self.tick = self.tick.wrapping_add(1);
        Ok(PressureTick { parameters, clear_reactions: changed, dispatch, claim, layout })
    }

    /// Plans a radial impulse: its box is clamped to the simulated grid's cells, and
    /// nothing is queued when the clamped box is empty
    pub fn apply_radial_impulse(&self, inputs: &RadialImpulseInputs) -> (plan: Option<
        (RadialImpulsePlan, [u32; 24]),
    >)
        requires
            i32::MIN <= inputs.origin.x * 8 <= i32::MAX,
            i32::MIN <= inputs.origin.y * 8 <= i32::MAX,
            i32::MIN < (inputs.origin.x + inputs.width) * 8 <= i32::MAX,
            i32::MIN < (inputs.origin.y + inputs.height) * 8 <= i32::MAX,
        ensures
            ({
                let low_x = spec_max(inputs.unclamped_minimum.x as int, inputs.origin.x * 8);
                let low_y = spec_max(inputs.unclamped_minimum.y as int, inputs.origin.y * 8);
                let high_x = spec_min(
                    inputs.unclamped_maximum.x as int,
                    (inputs.origin.x + inputs.width) * 8 - 1,
                );
                let high_y = spec_min(
                    inputs.unclamped_maximum.y as int,
                    (inputs.origin.y + inputs.height) * 8 - 1,
                );
                if high_x < low_x || high_y < low_y {
                    plan is None
                } else {
                    plan matches Some((impulse, parameters)) && {
                        &&& impulse.minimum.x == low_x
                        &&& impulse.minimum.y == low_y
                        &&& impulse.size[0] == high_x - low_x + 1
                        &&& impulse.size[1] == high_y - low_y + 1
                        &&& impulse.workgroups == spec_workgroups(
                            (high_x - low_x + 1) * (high_y - low_y + 1),
                        )
                        &&& parameters@ == spec_pressure_parameters(
                            PressureParameterInputs {
                                origin: inputs.origin,
                                width: inputs.width,
                                height: inputs.height,
                                ring_x: inputs.ring_x,
                                ring_y: inputs.ring_y,
                                center_x_bits: inputs.center_x_bits,
                                center_y_bits: inputs.center_y_bits,
                                radius_bits: inputs.radius_bits,
                                strength_bits: inputs.strength_bits,
                                delta_time_bits: 0,
                                gravity_bits: [0u32, 0u32],
                                rigid_body_count: 0,
                                rigid_cell_count: 0,
                                impulse_minimum: impulse.minimum,
                                impulse_size: impulse.size,
                            },
                            self.tick,
                            self.buffered_cell_count,
                            self.gas_count,
                        )
                    }
                }
            }),
    {
        let grid_low_x: i32 = inputs.origin.x * 8;
        let grid_low_y: i32 = inputs.origin.y * 8;
        let grid_high_x: i32 = (inputs.origin.x + inputs.width as i32) * 8 - 1;
        let grid_high_y: i32 = (inputs.origin.y + inputs.height as i32) * 8 - 1;
        let low_x: i32 = if inputs.unclamped_minimum.x < grid_low_x { grid_low_x } else { inputs.unclamped_minimum.x };
        let low_y: i32 = if inputs.unclamped_minimum.y < grid_low_y { grid_low_y } else { inputs.unclamped_minimum.y };
        let high_x: i32 = if inputs.unclamped_maximum.x < grid_high_x { inputs.unclamped_maximum.x } else { grid_high_x };
        let high_y: i32 = if inputs.unclamped_maximum.y < grid_high_y { inputs.unclamped_maximum.y } else { grid_high_y };
        if high_x < low_x || high_y < low_y {
            return None;
        }
        let columns: u32 = (high_x - low_x + 1) as u32;
        let rows: u32 = (high_y - low_y + 1) as u32;
        assert(columns as u64 * rows as u64 <= 0xffff_ffff * 0xffff_ffff) by (nonlinear_arith)
            requires
                columns <= 0xffff_ffff,
                rows <= 0xffff_ffff,
        ;
        let cells: u64 = columns as u64 * rows as u64;
        let impulse = RadialImpulsePlan {
            minimum: CellCoordinates { x: low_x, y: low_y },
            size: [columns, rows],
            workgroups: cells / 64 + if cells % 64 == 0 { 0 } else { 1 },
        };
        let parameter_inputs = PressureParameterInputs {
            origin: inputs.origin,
            width: inputs.width,
            height: inputs.height,
            ring_x: inputs.ring_x,
            ring_y: inputs.ring_y,
            center_x_bits: inputs.center_x_bits,
            center_y_bits: inputs.center_y_bits,
            radius_bits: inputs.radius_bits,
            strength_bits: inputs.strength_bits,
            delta_time_bits: 0,
            gravity_bits: [0, 0],
            rigid_body_count: 0,
            rigid_cell_count: 0,
            impulse_minimum: impulse.minimum,
            impulse_size: impulse.size,
        };
        let parameters: [u32; 24] = self.parameter_words(&parameter_inputs);
        Some((impulse, parameters))
    }

    /// The byte range of the per-cell pressure fields that `cell_count` cells from
    /// `cell_start` occupy
    pub fn clear_transient_state(&self, cell_start: usize, cell_count: usize) -> (clear: TransientClear)
        requires
            cell_count * 16 <= usize::MAX,
            cell_start * 16 <= u64::MAX,
        ensures
            clear.byte_offset == cell_start * 16,
            clear.byte_count == cell_count * 16,
    {
        TransientClear { byte_offset: cell_start as u64 * 16, byte_count: cell_count * PRESSURE_RECORD_SIZE }
    }
}

/// The pressure shader reads the impulse center from words 6 and 7 of the parameter
/// block, its radius from word 8 (byte 32) and its strength from word 9 (byte 36),
/// then the step duration and the tick
pub proof fn lemma_pressure_parameter_layout(
    inputs: PressureParameterInputs,
    tick: u32,
    buffered_cell_count: u32,
    gas_count: u32,
)
    ensures
        ({
            let words = spec_pressure_parameters(inputs, tick, buffered_cell_count, gas_count);
            &&& words.len() == 24
            &&& words[6] == inputs.center_x_bits
            &&& words[7] == inputs.center_y_bits
            &&& words[8] == inputs.radius_bits
            &&& words[9] == inputs.strength_bits
            &&& words[10] == inputs.delta_time_bits
            &&& words[11] == tick
            &&& spec_word_at(spec_words_le_bytes(words), 32) == inputs.radius_bits
            &&& spec_word_at(spec_words_le_bytes(words), 36) == inputs.strength_bits
        }),
{
    let words = spec_pressure_parameters(inputs, tick, buffered_cell_count, gas_count);
    lemma_word_of_image(words, 8);
    lemma_word_of_image(words, 9);
}

} // verus!
