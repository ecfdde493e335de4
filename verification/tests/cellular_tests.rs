use engine_physics::gpu_words::{decode_words_le, encode_words_le, read_word_le};
use engine_physics::simulation::cellular_collision::{
    decode_occupancy_masks, finish_collision_readback, CellularCollision,
};
use engine_physics::simulation::cellular_pressure::{
    next_power_of_two, CellularPressure, PressureCountError, PressureTickInputs, RadialImpulseInputs,
};
use engine_physics::simulation::collision_occupancy_snapshot::CollisionOccupancySnapshot as SimulationSnapshot;
use engine_physics::simulation::collision_readback_status::CollisionReadbackStatus;
use engine_physics::simulation::rigid_cellular_body::RigidCellularBodyCell;
use engine_physics::simulation::rigid_granular_readback_status::RigidGranularReadbackStatus;
use engine_physics::simulation_cellulars::cellular_dynamic::CellularDynamic;
use engine_physics::simulation_cellulars::cellular_physics_body_proxy::CellularPhysicsBodyProxy;
use engine_physics::simulation_cellulars::cellular_pressure_readback::ReactionReadbackClaim;
use engine_physics::simulation_cellulars::cellular_pressure_reaction_decode::decode_rigid_fractured_slots;
use engine_physics::simulation_cellulars::cellular_static_state_gather::{
    CellularStaticStateGather, GatherStatus,
};
use engine_physics::simulation_cellulars::collision_occupancy_snapshot::CollisionOccupancySnapshot;
use engine_physics::tiles::{split_cell_coordinate, CellCoordinates, TileCoordinates};

#[test]
fn words_survive_a_byte_round_trip() {
    let words = [0u32, 1, 0xdead_beef, u32::MAX];
    let bytes = encode_words_le(&words);
    assert_eq!(&bytes[8..12], &[0xef, 0xbe, 0xad, 0xde]);
    assert_eq!(decode_words_le(&bytes), words.to_vec());
    assert_eq!(read_word_le(&bytes, 4), 1);
    assert_eq!(decode_words_le(&bytes[..7]), vec![0]);
}

#[test]
fn cell_coordinates_split_by_floored_division() {
    assert_eq!(split_cell_coordinate(9), (1, 1));
    assert_eq!(split_cell_coordinate(-1), (-1, 7));
    assert_eq!(split_cell_coordinate(-8), (-1, 0));
    assert_eq!(split_cell_coordinate(i32::MIN), (i32::MIN / 8, 0));
}

#[test]
fn simulation_snapshot_reads_cells_by_tile_and_bit() {
    let snapshot = SimulationSnapshot {
        sequence: 1,
        origin: TileCoordinates { x: -1, y: 0 },
        width: 2,
        height: 1,
        masks: vec![[0, 0], [1 << 9, 0]],
    };
    assert_eq!(snapshot.is_cell_occupied(1, 1), Some(true));
    assert_eq!(snapshot.is_cell_occupied(0, 1), Some(false));
    assert_eq!(snapshot.is_cell_occupied(-8, 0), Some(false));
    assert_eq!(snapshot.is_cell_occupied(-9, 0), None);
    assert_eq!(snapshot.is_cell_occupied(0, 8), None);
}

#[test]
fn cleared_static_cell_reads_empty_and_nothing_else_changes() {
    let mut snapshot = CollisionOccupancySnapshot {
        sequence: 0,
        origin: TileCoordinates { x: 0, y: 0 },
        width: 1,
        height: 1,
        static_masks: vec![[u32::MAX, u32::MAX]],
        dynamic_masks: vec![[u32::MAX, 0]],
    };
    assert_eq!(snapshot.is_static_cell_occupied(3, 5), Some(true));
    snapshot.clear_static_cell(3, 5);
    assert_eq!(snapshot.is_static_cell_occupied(3, 5), Some(false));
    assert_eq!(snapshot.is_static_cell_occupied(4, 5), Some(true));
    assert_eq!(snapshot.static_masks, vec![[u32::MAX, !(1u32 << (8 + 3))]]);
    assert_eq!(snapshot.dynamic_tile_mask(0, 0), [u32::MAX, 0]);
    assert_eq!(snapshot.is_static_cell_occupied(8, 0), None);
    let patch = snapshot.static_patch_masks(0, 0);
    assert_eq!(patch[0], [u32::MAX, !(1u32 << (8 + 3))]);
    assert!(patch[1..].iter().all(|mask| *mask == [0, 0]));
}

#[test]
fn collision_collection_keeps_the_newest_snapshot_and_stops_at_errors() {
    let snapshot = |sequence| SimulationSnapshot {
        sequence,
        origin: TileCoordinates { x: 0, y: 0 },
        width: 0,
        height: 0,
        masks: Vec::new(),
    };
    let mut collision = CellularCollision::new(2, 3);
    assert_eq!(collision.tile_count, 6);
    assert_eq!(collision.readback_byte_size(), 48);
    let mut slots = vec![
        CollisionReadbackStatus::Complete(Ok(snapshot(4))),
        CollisionReadbackStatus::Complete(Ok(snapshot(2))),
        CollisionReadbackStatus::Mapping,
    ];
    assert_eq!(collision.collect_completed(&mut slots), Ok(()));
    assert_eq!(collision.latest.as_ref().map(|s| s.sequence), Some(4));
    assert!(matches!(slots[0], CollisionReadbackStatus::Available));
    assert!(matches!(slots[2], CollisionReadbackStatus::Mapping));
    let mut slots = vec![
        CollisionReadbackStatus::Complete(Err("lost".to_owned())),
        CollisionReadbackStatus::Complete(Ok(snapshot(9))),
    ];
    assert_eq!(collision.collect_completed(&mut slots), Err("lost".to_owned()));
    assert_eq!(collision.latest.as_ref().map(|s| s.sequence), Some(4));
    assert!(matches!(slots[1], CollisionReadbackStatus::Complete(Ok(_))));
}

#[test]
fn collision_extraction_claims_the_first_free_slot() {
    let mut collision = CellularCollision::new(1, 1);
    let mut slots = CellularCollision::initial_readback_slots();
    assert_eq!(slots.len(), 3);
    let extraction = collision.extract(&mut slots, 5, 6, 7, 8).unwrap();
    assert_eq!((extraction.slot, extraction.sequence), (0, 0));
    assert_eq!(extraction.parameters[..4], [5, 0, 0, 0]);
    assert_eq!(collision.sequence_next, 1);
    slots[1] = CollisionReadbackStatus::Mapping;
    let extraction = collision.extract(&mut slots, 5, 6, 7, 8).unwrap();
    assert_eq!(extraction.slot, 2);
    assert!(collision.extract(&mut slots, 5, 6, 7, 8).is_none());
}

#[test]
fn collision_readback_decodes_masks_or_reports_failure() {
    let bytes = vec![1, 0, 0, 0, 2, 0, 0, 0, 3];
    assert_eq!(decode_occupancy_masks(&bytes), vec![[1, 2]]);
    let snapshot = finish_collision_readback(Some(Ok(bytes)), 3, TileCoordinates { x: 1, y: 2 }, 1, 1).unwrap();
    assert_eq!((snapshot.sequence, snapshot.masks.clone()), (3, vec![[1, 2]]));
    let failed = finish_collision_readback(None, 0, TileCoordinates { x: 0, y: 0 }, 1, 1);
    assert_eq!(failed.err(), Some("Cellular collision readback failed".to_owned()));
}

#[test]
fn fractured_slots_are_listed_in_ascending_order() {
    let mut bytes = vec![0u8; 8];
    bytes[0] = 0b1010_0001;
    bytes[7] = 0x80;
    assert_eq!(decode_rigid_fractured_slots(&bytes, 0, 8), vec![0, 5, 7, 63]);
    assert_eq!(decode_rigid_fractured_slots(&bytes, 4, 8), vec![31]);
    assert!(decode_rigid_fractured_slots(&bytes, 0, 3).is_empty());
}

#[test]
fn capacity_grows_to_the_next_power_of_two() {
    assert_eq!(next_power_of_two(0), 1);
    assert_eq!(next_power_of_two(1), 1);
    assert_eq!(next_power_of_two(17), 32);
    assert_eq!(next_power_of_two(64), 64);
    let mut pressure = CellularPressure::new(2, 640);
    assert_eq!(pressure.buffered_tile_count(), 10);
    assert_eq!(pressure.rigid_fracture_word_count, 20);
    assert_eq!(pressure.readback_slot_size(), 16 * 128 + 4 + 20 * 4);
    let mut slots = vec![
        RigidGranularReadbackStatus::Mapping,
        RigidGranularReadbackStatus::Mapping,
        RigidGranularReadbackStatus::Mapping,
    ];
    assert!(!pressure.ensure_rigid_body_capacity(&mut slots, 16));
    assert!(slots.iter().all(|slot| matches!(slot, RigidGranularReadbackStatus::Mapping)));
    assert!(pressure.ensure_rigid_body_capacity(&mut slots, 17));
    assert_eq!(pressure.rigid_body_capacity, 32);
    assert_eq!(slots.len(), 3);
    assert!(slots.iter().all(|slot| matches!(slot, RigidGranularReadbackStatus::Available)));
}

#[test]
fn growing_capacity_reallocates_busy_slots_and_claims_one() {
    let mut pressure = CellularPressure::new(2, 4096);
    let mut slots = vec![
        RigidGranularReadbackStatus::Mapping,
        RigidGranularReadbackStatus::Mapping,
        RigidGranularReadbackStatus::Mapping,
    ];
    let tick = pressure.simulate(&mut slots, &tick_inputs(2, 130, 1)).unwrap();
    assert!(matches!(tick.claim, ReactionReadbackClaim::Saturated));
    let tick = pressure.simulate(&mut slots, &tick_inputs(17, 130, 1)).unwrap();
    assert!(matches!(tick.claim, ReactionReadbackClaim::Claimed { slot: 0, sequence: 0 }));
    assert!(tick.clear_reactions);
    assert!(matches!(slots[0], RigidGranularReadbackStatus::Mapping));
    assert!(matches!(slots[1], RigidGranularReadbackStatus::Available));
    let tick = pressure.simulate(&mut slots, &tick_inputs(17, 130, 1)).unwrap();
    assert!(matches!(tick.claim, ReactionReadbackClaim::Claimed { slot: 1, sequence: 1 }));
    assert!(!tick.clear_reactions);
}

fn tick_inputs(bodies: usize, cells: usize, revision: u64) -> PressureTickInputs {
    PressureTickInputs {
        origin: TileCoordinates { x: -1, y: 2 },
        width: 3,
        height: 4,
        ring_x: 1,
        ring_y: 0,
        delta_time_bits: 0x3c88_8889,
        gravity_bits: [0, 0xc11c_cccd],
        rigid_body_count: bodies,
        rigid_cell_count: cells,
        rigid_topology_revision: revision,
    }
}

#[test]
fn pressure_tick_claims_a_readback_slot_per_body_batch() {
    let mut pressure = CellularPressure::new(2, 4096);
    let mut slots = vec![
        RigidGranularReadbackStatus::Available,
        RigidGranularReadbackStatus::Available,
        RigidGranularReadbackStatus::Available,
    ];
    let tick = pressure.simulate(&mut slots, &tick_inputs(0, 0, 1)).unwrap();
    assert!(matches!(tick.claim, ReactionReadbackClaim::NoBodies));
    assert!(tick.clear_reactions);
    assert_eq!(tick.parameters[0], u32::MAX);
    assert_eq!(tick.parameters[11], 0);
    assert_eq!(tick.parameters[13], 10.0f32.to_bits());
    assert_eq!(
        (tick.dispatch.tile_mask_workgroups, tick.dispatch.tile_workgroups),
        (1, 64)
    );
    assert_eq!((tick.dispatch.rigid_body_workgroups, tick.dispatch.rigid_cell_workgroups), (1, 1));
    let tick = pressure.simulate(&mut slots, &tick_inputs(2, 130, 1)).unwrap();
    assert!(!tick.clear_reactions);
    assert!(matches!(tick.claim, ReactionReadbackClaim::Claimed { slot: 0, sequence: 0 }));
    let layout = tick.layout.unwrap();
    assert_eq!(layout.reaction_size, 160);
    assert_eq!(layout.fracture_count_offset, 256);
    assert_eq!(layout.mapped_size, 260 + 128 * 4);
    assert_eq!(tick.parameters[11], 1);
    assert_eq!(tick.dispatch.rigid_cell_workgroups, 3);
    assert_eq!(pressure.tick, 2);
    slots[1] = RigidGranularReadbackStatus::Mapping;
    slots[2] = RigidGranularReadbackStatus::Mapping;
    let tick = pressure.simulate(&mut slots, &tick_inputs(2, 130, 1)).unwrap();
    assert!(matches!(tick.claim, ReactionReadbackClaim::Saturated));
    assert!(tick.layout.is_none());
    assert_eq!(pressure.tick, 3);
}

#[test]
fn pressure_tick_refuses_counts_past_32_bits() {
    let mut pressure = CellularPressure::new(0, 64);
    let mut slots = vec![
        RigidGranularReadbackStatus::Available,
        RigidGranularReadbackStatus::Available,
        RigidGranularReadbackStatus::Available,
    ];
    let result = pressure.simulate(&mut slots, &tick_inputs(0, 1 << 32, 0));
    assert_eq!(result.err(), Some(PressureCountError::RigidCellCount));
    assert_eq!(pressure.tick, 0);
    assert_eq!(
        PressureCountError::RigidBodyCount.message(),
        "Rigid body count exceeds GPU indexing range"
    );
}

#[test]
fn radial_impulse_is_clamped_to_the_grid() {
    let pressure = CellularPressure::new(0, 64);
    let inputs = |minimum: CellCoordinates, maximum: CellCoordinates| RadialImpulseInputs {
        origin: TileCoordinates { x: -1, y: 0 },
        width: 2,
        height: 1,
        ring_x: 0,
        ring_y: 0,
        center_x_bits: 0,
        center_y_bits: 0,
        radius_bits: 0,
        strength_bits: 0,
        unclamped_minimum: minimum,
        unclamped_maximum: maximum,
    };
    let (plan, parameters) = pressure
        .apply_radial_impulse(&inputs(CellCoordinates { x: -20, y: 3 }, CellCoordinates { x: 2, y: 30 }))
        .unwrap();
    assert_eq!((plan.minimum.x, plan.minimum.y), (-8, 3));
    assert_eq!(plan.size, [11, 5]);
    assert_eq!(plan.workgroups, 1);
    assert_eq!(parameters[20], (-8i32) as u32);
    assert_eq!(parameters[22], 11);
    assert!(pressure
        .apply_radial_impulse(&inputs(CellCoordinates { x: 9, y: 0 }, CellCoordinates { x: 12, y: 4 }))
        .is_none());
    let clear = pressure.clear_transient_state(3, 2);
    assert_eq!((clear.byte_offset, clear.byte_count), (48, 32));
}

fn cell(x: i32, y: i32) -> RigidCellularBodyCell {
    RigidCellularBodyCell { local: [x, y], material: 7, appearance: 8, state_slot: 9, state_generation: 10 }
}

#[test]
fn proxy_rasterizes_every_rigid_cell_once() {
    let mut proxy = CellularPhysicsBodyProxy::new(3);
    let bodies = vec![vec![cell(-1, 2), cell(0, 2)], vec![cell(5, 6), cell(7, 8)]];
    assert_eq!(proxy.rigid_cell_count(&bodies), 3);
    assert_eq!(proxy.rigid_cell_capacity(), 3);
    let plan = proxy.rasterize(TileCoordinates { x: 0, y: 0 }, 1, 1, 0, 0, [0, 0], 3, &bodies, 1);
    let bytes = plan.cell_bytes.unwrap();
    assert_eq!(bytes.len(), 3 * 32);
    assert_eq!(decode_words_le(&bytes[..32]), vec![u32::MAX, 2, 0, 7, 8, 9, 10, 0]);
    assert_eq!(decode_words_le(&bytes[64..]), vec![5, 6, 1, 7, 8, 9, 10, 0]);
    assert_eq!(plan.rigid_cell_count, 3);
    assert_eq!(plan.parameters[9..12], [3, 3, 2]);
    assert_eq!(plan.workgroups, [1, 1, 3, 3, 3, 1, 1]);
    assert_eq!(proxy.actor_capacity, 4);
    let again = proxy.rasterize(TileCoordinates { x: 0, y: 0 }, 1, 1, 0, 0, [0, 0], 1, &bodies, 1);
    assert!(again.cell_bytes.is_none());
}

#[test]
fn destruction_requests_round_trip() {
    let proxy = CellularPhysicsBodyProxy::new(2);
    assert!(proxy.resolve_destruction_requests(&[]).is_none());
    let request = proxy.resolve_destruction_requests(&[4, 5, 6]).unwrap();
    assert_eq!(request.count, 2);
    assert_eq!(decode_words_le(&request.request_bytes), vec![2, 4, 5]);
    assert_eq!((request.readback_size, request.workgroups), (16, 1));
    let handles = CellularPhysicsBodyProxy::decode_destroyed_handles(&[1, 0, 0, 0, 2, 0, 0, 0, 9]);
    assert_eq!(handles, vec![[1, 2]]);
}

#[test]
fn static_state_gather_handles_one_request_at_a_time() {
    let mut gather = CellularStaticStateGather::new(0);
    assert_eq!(gather.capacity, 1);
    assert!(gather.submit(&[]).is_none());
    assert!(gather.submit(&[1, 2]).is_none());
    let request = gather.submit(&[7]).unwrap();
    assert_eq!((request.count, request.workgroups, request.readback_size), (1, 1, 32));
    assert!(gather.submit(&[7]).is_none());
    assert!(gather.take_completed().is_none());
    let mut bytes = encode_words_le(&[3, 4, 5, 6, 7, 0, 0, 0]);
    bytes.push(0);
    gather.complete(Ok(bytes));
    let states = gather.take_completed().unwrap().unwrap();
    assert_eq!(states.len(), 1);
    assert_eq!((states[0].material, states[0].temperature_bits), (3, 7));
    assert!(matches!(gather.status, GatherStatus::Idle));
    assert!(gather.submit(&[7]).is_some());
}

#[test]
fn cellular_dynamic_tick_parameters() {
    let mut dynamic = CellularDynamic::new(2, 3);
    assert_eq!(dynamic.buffered_cell_count, 384);
    let tick = dynamic.simulate_cellular_dynamic_tick(TileCoordinates { x: -2, y: 1 }, 2, 3, 1, 0, [0, 1], 2);
    assert_eq!(tick.parameters[..16], [(-2i32) as u32, 1, 2, 3, (-2i32) as u32, 1, 2, 3, 1, 0, 0, 1, 2, 0, 384, 4]);
    assert_eq!((tick.workgroups, tick.cell_field_size), (6, 1536));
    assert_eq!(dynamic.tick, 1);
    assert_eq!(dynamic.clear_cellular_dynamic_kinematics(2, 3), (32, 48));
}

#[test]
fn reaction_sequences_continue_across_ticks_until_the_slots_saturate() {
    let mut pressure = CellularPressure::new(2, 4096);
    let mut slots = vec![
        RigidGranularReadbackStatus::Available,
        RigidGranularReadbackStatus::Available,
        RigidGranularReadbackStatus::Available,
    ];
    let mut sequences = Vec::new();
    for _ in 0..5 {
        let tick = pressure.simulate(&mut slots, &tick_inputs(2, 130, 4)).unwrap();
        if let ReactionReadbackClaim::Claimed { sequence, .. } = tick.claim {
            sequences.push(sequence);
        } else {
            assert!(matches!(tick.claim, ReactionReadbackClaim::Saturated));
        }
    }
    assert_eq!(sequences, vec![0, 1, 2]);
    assert_eq!(pressure.readback.sequence_next(), 3);
    assert_eq!(pressure.readback.sequence_apply_next(), 0);
}
