//! Verified integer logic of a cellular physics engine: occupancy snapshots,
//! configuration validation, readback decoding, and deterministic arbitration.

pub mod simulation;
pub mod tiles;
pub mod simulation_cellulars;
pub mod gpu_words;
