//! Integer constants shared by the simulation systems.

use vstd::prelude::*;

verus! {

/// Number of collision readback buffers cycled between the device and the host
pub const READBACK_SLOT_COUNT: usize = 3;

/// Largest number of cells a cellular dynamic cell may move in one tick
pub const MAXIMUM_MOVEMENT_CELLS: u32 = 4;

/// Number of rigid reaction readback buffers cycled between the device and the host
pub const RIGID_REACTION_READBACK_SLOT_COUNT: usize = 3;

/// Rigid body capacity that reaction buffers start with
pub const INITIAL_RIGID_BODY_CAPACITY: usize = 16;

/// Fluid edit flag that removes fluid instead of adding it
pub const FLUID_EDIT_ERASE: u32 = 1;

/// Position-based fluid substeps per tick
pub const PBF_SUBSTEP_COUNT: u32 = 2;

/// Position-based fluid constraint iterations per substep
pub const PBF_CONSTRAINT_ITERATION_COUNT: u32 = 4;

/// Gas pressure solver iterations per tick
pub const PRESSURE_ITERATION_COUNT: u32 = 12;

/// Bytes of one rigid removal event record
pub const RIGID_REMOVAL_EVENT_SIZE: u64 = 32;

/// Byte offset of the first rigid removal event record in its readback
pub const RIGID_REMOVAL_EVENTS_OFFSET: u64 = 256;

/// Tiles along one side of a static terrain collision patch
pub const TERRAIN_COLLISION_PATCH_TILES: i32 = 4;

/// Cells along one side of a static terrain collision patch
pub const TERRAIN_COLLISION_PATCH_CELLS: i32 = 32;

/// Ticks a terrain patch stays cached after it was last required
pub const TERRAIN_PATCH_RETENTION_TICKS: u64 = 120;

/// Ticks a dynamic tile stays cached after it was last required
pub const DYNAMIC_TILE_RETENTION_TICKS: u64 = 30;

/// Bytes of one rigid phase-transition candidate record
pub const RIGID_PHASE_CANDIDATE_SIZE: u64 = 40;

/// Byte offset of the first rigid phase-transition candidate in its readback
pub const RIGID_PHASE_CANDIDATES_OFFSET: u64 = 256;

} // verus!
