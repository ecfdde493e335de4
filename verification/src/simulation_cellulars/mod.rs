//! Cellular collision, pressure, occupancy, and body-proxy bookkeeping.

pub mod cellular_pressure_reaction_decode;
pub mod cellular_pressure_simulation;
pub mod cellular_pressure_readback;
pub mod collision_occupancy_snapshot;
pub mod cellular_physics_body_proxy;
pub mod cellular_dynamic;
pub mod cellular_static_state_gather;
pub mod collision_readback_status;
