//! Simulation-wide configuration and shared cellular bookkeeping.

pub mod simulation_configuration;
pub mod collision_occupancy_snapshot;
pub mod cellular_collision;
pub mod collision_readback_status;
pub mod rigid_granular_reaction_batch;
pub mod rigid_granular_readback_status;
pub mod material_reactions;
pub mod rigid_cellular_body;
pub mod scene_physics_world;
pub mod simulation_constants;
pub mod thermal_phase_transitions;
pub mod cellular_pressure;
pub mod fluids;
pub mod thermal_conduction;
pub mod thermal_scatter;
pub mod thermal_interaction;
pub mod material_mutations;
pub mod rigid_cell_state_upload;
pub mod reaction_material_table;
pub mod terrain_bridge;
pub mod cellular_dynamic;
pub mod pressure_materials;
