use engine_physics::simulation::fluids::{FluidEdit, FluidParameterInputs, FluidPass, Fluids};
use engine_physics::simulation::material_reactions::{resolve_contention, MaterialReactions, ReactionCandidate};
use engine_physics::simulation::simulation_configuration::{
    validate_scene_dimensions, ConfigurationError, SimulationConfiguration,
};
use engine_physics::simulation::thermal_phase_transitions::{
    test_rigid_phase_readback_len, RigidPhaseReadbackEvent, ThermalPhaseTransitions,
};
use engine_physics::simulation::thermal_scatter::{ScatterPass, ThermalScatter};
use engine_physics::simulation::thermal_conduction::ThermalConduction;
use engine_physics::simulation::thermal_interaction::ThermalInteraction;
use engine_physics::simulation::material_mutations::MaterialMutations;
use engine_physics::simulation::cellular_dynamic::CellularDynamic;
use engine_physics::simulation::pressure_materials::{pressure_material_tables, table_upload, PressureMaterial};
use engine_physics::simulation::rigid_cell_state_upload::RigidCellStateUpload;
use engine_physics::simulation::reaction_material_table::{ReactantSelector, ReactionMaterialTable, ReactionProduct, ReactionRule};
use engine_physics::tiles::TileCoordinates;

#[test]
fn test_rigid_readback_size_scales_with_submitted_rigid_count() {
    assert_eq!(test_rigid_phase_readback_len(0), 256);
    assert_eq!(test_rigid_phase_readback_len(128), 256 + 128 * 40);
    assert!(test_rigid_phase_readback_len(128) < test_rigid_phase_readback_len(100_000));
}

#[test]
fn contention_is_priority_then_stable_and_atomic() {
    let candidates = vec![
        ReactionCandidate {
            anchor: 8,
            reaction_index: 1,
            priority: 1,
            authoring_order: 1,
            extent: 1.0f32,
            authorities: [Some(7), Some(9)],
        },
        ReactionCandidate {
            anchor: 2,
            reaction_index: 2,
            priority: 2,
            authoring_order: 0,
            extent: 1.0,
            authorities: [Some(7), Some(10)],
        },
        ReactionCandidate {
            anchor: 3,
            reaction_index: 3,
            priority: 1,
            authoring_order: 0,
            extent: 1.0,
            authorities: [Some(11), None],
        },
    ];
    let accepted = resolve_contention(candidates);
    assert_eq!(
        accepted.iter().map(|c| c.reaction_index).collect::<Vec<_>>(),
        vec![2, 3]
    );
}

#[test]
fn contention_ties_fall_back_to_input_order() {
    let candidate = |authority: u64| ReactionCandidate {
        anchor: 4,
        reaction_index: 1,
        priority: 0,
        authoring_order: 0,
        extent: (),
        authorities: [Some(authority), None],
    };
    let accepted = resolve_contention(vec![candidate(5), candidate(5), candidate(6)]);
    assert_eq!(accepted.len(), 2);
    assert_eq!(accepted[0].authorities, [Some(5), None]);
    assert_eq!(accepted[1].authorities, [Some(6), None]);
}

#[test]
fn contention_outcome_does_not_depend_on_discovery_order() {
    let candidate = |anchor: u32, priority: i32, first: u64, second: Option<u64>| ReactionCandidate {
        anchor,
        reaction_index: anchor,
        priority,
        authoring_order: 0,
        extent: (),
        authorities: [Some(first), second],
    };
    let discovered = || {
        vec![
            candidate(1, 0, 10, Some(11)),
            candidate(2, 3, 11, None),
            candidate(3, 1, 12, Some(10)),
            candidate(4, 1, 13, None),
            candidate(5, 2, 12, None),
        ]
    };
    let mut reversed = discovered();
    reversed.reverse();
    let anchors = |accepted: Vec<ReactionCandidate<()>>| accepted.iter().map(|c| c.anchor).collect::<Vec<_>>();
    assert_eq!(anchors(resolve_contention(discovered())), vec![2, 5, 4]);
    assert_eq!(anchors(resolve_contention(reversed)), vec![2, 5, 4]);
}

#[test]
fn phase_transition_evaluation_advances_the_tick() {
    let mut transitions = ThermalPhaseTransitions::new(130, 64, 3);
    let pass = transitions.encode([-2, 5], [4, 6], [1, 2], 7);
    assert!(pass.clear_rigid_candidates);
    assert_eq!(pass.parameters, [(-2i32) as u32, 5, 4, 6, 1, 2, 130, 64, 3, 0, 7, 0]);
    assert_eq!(pass.cell_workgroups, 3);
    assert_eq!(pass.particle_workgroups, 1);
    assert_eq!(pass.gas_workgroups, [2, 3, 2]);
    assert_eq!(pass.rigid_workgroups, Some(3));
    assert_eq!(transitions.tick, 1);
    transitions.tick = u32::MAX;
    transitions.encode([0, 0], [1, 1], [0, 0], 0);
    assert_eq!(transitions.tick, 0);
}

#[test]
fn rigid_phase_readback_round_trip() {
    let mut transitions = ThermalPhaseTransitions::new(2, 0, 0);
    assert!(transitions.take_rigid_candidates(RigidPhaseReadbackEvent::NotReceived).is_none());
    let copy = transitions.submit_rigid_readback().unwrap();
    assert_eq!((copy.count_size, copy.candidates_offset, copy.candidates_size), (4, 256, 80));
    assert!(transitions.rigid_readback_pending());
    assert!(transitions.submit_rigid_readback().is_none());
    let pass = transitions.encode([0, 0], [1, 1], [0, 0], 0);
    assert!(!pass.clear_rigid_candidates);
    assert_eq!(pass.rigid_workgroups, None);
    assert!(transitions.take_rigid_candidates(RigidPhaseReadbackEvent::NotReceived).is_none());
    assert!(transitions.rigid_readback_pending());
    let mut bytes = vec![0u8; 256 + 2 * 40];
    bytes[0] = 5; // more candidates than slots: capped at two
    for word in 0..20u32 {
        let offset = 256 + 4 * word as usize;
        bytes[offset..offset + 4].copy_from_slice(&(100 + word).to_le_bytes());
    }
    let records = transitions
        .take_rigid_candidates(RigidPhaseReadbackEvent::Mapped(bytes))
        .unwrap();
    assert_eq!(records.len(), 2);
    assert_eq!(records[0], [100, 101, 102, 103, 104, 105, 106, 107, 108, 109]);
    assert_eq!(records[1][9], 119);
    assert!(!transitions.rigid_readback_pending());
}

#[test]
fn failed_rigid_phase_readback_yields_no_candidates() {
    let mut transitions = ThermalPhaseTransitions::new(2, 0, 0);
    transitions.submit_rigid_readback();
    assert_eq!(
        transitions.take_rigid_candidates(RigidPhaseReadbackEvent::Failed),
        Some(Vec::new())
    );
    transitions.submit_rigid_readback();
    assert_eq!(transitions.take_rigid_candidates(RigidPhaseReadbackEvent::Unreadable), None);
    assert!(!transitions.rigid_readback_pending());
}

#[test]
fn rollback_is_capped_by_the_cell_count() {
    let transitions = ThermalPhaseTransitions::new(2, 0, 0);
    assert!(transitions.rollback_rigid_reservations(&[]).is_none());
    let plan = transitions.rollback_rigid_reservations(&[7, 8, 9]).unwrap();
    assert_eq!(plan.count, 2);
    assert_eq!(plan.slot_bytes, vec![7, 0, 0, 0, 8, 0, 0, 0]);
    assert_eq!(plan.workgroups, 1);
}

#[test]
fn scatter_runs_rigid_passes_only_with_rigid_cells() {
    let scatter = ThermalScatter::new(128, 65, 1);
    let (parameters, passes) = scatter.encode([1, -1], [2, 2], [0, 1], false);
    assert_eq!(parameters, [1, u32::MAX, 2, 2, 0, 1]);
    assert_eq!(passes, vec![(ScatterPass::Cellular, 2), (ScatterPass::Fluid, 2)]);
    let (_, passes) = scatter.encode([0, 0], [1, 1], [0, 0], true);
    assert_eq!(
        passes,
        vec![
            (ScatterPass::ClearRigid, 1),
            (ScatterPass::Cellular, 2),
            (ScatterPass::Fluid, 2),
            (ScatterPass::AccumulateRigid, 2),
            (ScatterPass::ApplyRigid, 1),
        ]
    );
}

#[test]
fn conduction_and_interaction_plans() {
    let conduction = ThermalConduction::new(200);
    let pass = conduction.encode([3, 4], [5, 6], [7, 8], 0x3f80_0000);
    assert_eq!(pass.parameters, [0x3f80_0000, 200, 3, 4, 5, 6, 7, 8]);
    assert_eq!((pass.workgroups, pass.pass_count), (4, 4));
    let interaction = ThermalInteraction::new(64);
    assert_eq!(interaction.gather([-1, 2], [3, 4], [5, 6]), (48, [u32::MAX, 2, 3, 4, 5, 6], 1));
}

#[test]
fn mutation_defaults_table_is_never_empty() {
    let none = MaterialMutations::new(&[None, None], 64);
    assert_eq!(none.static_default_count, 1);
    assert!(none.defaults_upload().is_none());
    let stone = 0.75f32.to_bits();
    let mutations = MaterialMutations::new(&[None, Some(stone), None, Some(1), Some(2)], 64);
    assert_eq!(mutations.request_slots, 64);
    assert_eq!(mutations.static_defaults, vec![stone, 1, 2]);
    assert_eq!(mutations.static_default_count, 3);
    let bytes = mutations.defaults_upload().unwrap();
    assert_eq!(&bytes[..4], &stone.to_le_bytes());
    assert_eq!(&bytes[4..], &[1, 0, 0, 0, 2, 0, 0, 0]);
    assert_eq!(mutations.resolve(64, 2), [64, 2, 0, 0]);
}

#[test]
fn reactions_are_skipped_without_compiled_rules() {
    assert_eq!(MaterialReactions::new(640, 0).encode(), None);
    assert_eq!(MaterialReactions::new(640, 2).encode(), Some(10));
}

#[test]
fn rigid_cell_state_upload_packs_records() {
    let upload = RigidCellStateUpload::new(0);
    assert_eq!(upload.capacity, 1);
    assert!(upload.apply(&[]).is_none());
    let batch = upload.apply(&[[1, 2, 3, 4], [5, 6, 7, 0x0100]]).unwrap();
    assert_eq!(batch.count, 2);
    assert_eq!(batch.workgroups, 1);
    assert_eq!(&batch.record_bytes[..4], &[1, 0, 0, 0]);
    assert_eq!(&batch.record_bytes[28..], &[0, 1, 0, 0]);
}

#[test]
fn fluid_sizing_matches_the_support_radius() {
    let fluids = Fluids::new(5, 3);
    assert_eq!(fluids.buffered_cell_count, 960);
    assert_eq!(fluids.particle_capacity(), 960);
    assert_eq!(fluids.bucket_dimensions, [16, 10]);
    assert_eq!(fluids.bucket_count, 160);
    assert_eq!(Fluids::minimum_buffer_tiles(), 1);
    assert_eq!(Fluids::erase_edit(), 1);
    assert_eq!(Fluids::new(1, 1).bucket_dimensions, [4, 4]);
}

#[test]
fn fluid_edits_keep_the_last_edit_of_each_cell() {
    let fluids = Fluids::new(1, 1);
    let edits = [
        FluidEdit { cell: 3, material: 9, amount_bits: 1, temperature_bits: 2 },
        FluidEdit { cell: 5, material: 8, amount_bits: 3, temperature_bits: 4 },
        FluidEdit { cell: 3, material: 7, amount_bits: 5, temperature_bits: 6 },
    ];
    let fields = fluids.edit_fields(&edits, u32::MAX);
    assert_eq!(fields.materials.len(), 64);
    assert_eq!(fields.materials[3], 7);
    assert_eq!(fields.amounts[3], 5);
    assert_eq!(fields.temperatures[3], 6);
    assert_eq!(fields.materials[5], 8);
    assert_eq!(fields.materials[0], u32::MAX);
    assert_eq!(fields.amounts[0], 0);
}

#[test]
fn fluid_simulation_passes_follow_the_substep_schedule() {
    let fluids = Fluids::new(2, 2);
    let passes = fluids.simulation_passes();
    assert_eq!(passes.len(), 1 + 2 * (1 + 4 * 5 + 1) + 8);
    assert_eq!(passes[0], (FluidPass::ClassifyActive, 4));
    assert_eq!(passes[1], (FluidPass::Predict, 4));
    assert_eq!(passes[2], (FluidPass::ClearBuckets, 1));
    assert_eq!(passes[22], (FluidPass::Commit, 4));
    assert_eq!(passes[52], (FluidPass::Raster, 4));
    assert_eq!(fluids.rebuild_passes().len(), 3);
    assert_eq!(fluids.edit_passes()[0], (FluidPass::EditRemove, 4));
}

#[test]
fn fluid_particle_commit_and_free_slots() {
    let fluids = Fluids::new(1, 1);
    assert!(fluids.commit_reserved_particle(64, 1, [0, 0], [0, 0], 0, 0).is_none());
    let (offset, record) = fluids.commit_reserved_particle(2, 9, [1, 2], [3, 4], 5, 6).unwrap();
    assert_eq!(offset, 80);
    assert_eq!(record, [9, 1, 1, 2, 3, 4, 0, 0, 5, 6]);
    let slots = fluids.free_slot_bytes();
    assert_eq!(slots.len(), 256);
    assert_eq!(&slots[4..8], &[1, 0, 0, 0]);
    let words = fluids.parameter_words(&FluidParameterInputs {
        active_origin: TileCoordinates { x: 1, y: 2 },
        active_width: 3,
        active_height: 4,
        buffered_origin: TileCoordinates { x: -1, y: 0 },
        buffered_width: 5,
        buffered_height: 6,
        ring_offset_x: 7,
        ring_offset_y: 8,
        streaming_origin: TileCoordinates { x: 0, y: 0 },
        streaming_dimensions: [0, 0],
        gravity_bits: [0, 0],
        delta_time_bits: 0,
        sample_center_bits: [0, 0],
        sample_parameter_bits: [0, 0],
        sample_kind: 0,
    });
    assert_eq!(words[0], u32::MAX);
    assert_eq!(words[22], 2.5f32.to_bits());
    assert_eq!(words[23], 0.45f32.to_bits());
    assert_eq!(words[24], 4);
}

#[test]
fn simulation_configuration_reports_each_error() {
    let check = |width, height, buffer_size, streaming_batch_size| {
        SimulationConfiguration { width, height, buffer_size, streaming_batch_size }.validate()
    };
    assert_eq!(check(0, 4, 2, 1), Err(ConfigurationError::ZeroDimensions));
    assert_eq!(check(4, 4, 2, 0), Err(ConfigurationError::ZeroStreamingBatch));
    assert_eq!(check(4, 2, 3, 3), Err(ConfigurationError::BatchExceedsDimensions));
    assert_eq!(check(4, 4, 3, 2), Err(ConfigurationError::BufferNotBatchMultiple));
    assert_eq!(check(65535 - 3, 4, 2, 1), Err(ConfigurationError::BufferExceedsSceneDimensions));
    assert_eq!(check(65535 - 4, 4, 2, 1), Ok(()));
    assert_eq!(check(4, 4, 1, 1), Ok(()));
}

#[test]
fn scene_dimensions_need_room_for_fluids() {
    assert_eq!(validate_scene_dimensions(4, 4, 1, 1), Err(ConfigurationError::BufferTooSmallForFluids));
    assert_eq!(validate_scene_dimensions(4, 4, 2, 1), Ok(()));
    assert_eq!(validate_scene_dimensions(65535, 4, 2, 1), Err(ConfigurationError::BufferExceedsSceneDimensions));
    assert_eq!(
        ConfigurationError::BufferTooSmallForFluids.message(),
        "Simulation buffer cannot contain fluid motion and boundary support"
    );
}

#[test]
fn reaction_table_encodes_each_rule_as_one_record() {
    let selector = |offset: u32| ReactantSelector { member_offset: offset, member_count: 2, amount_bits: 1.0f32.to_bits(), present: 1 };
    let product = |material: u32| ReactionProduct { material, amount_bits: 0.5f32.to_bits(), present: 1 };
    let rule = ReactionRule {
        reactants: [selector(0), selector(2)],
        products: [product(7), product(9)],
        minimum_temperature_bits: 300.0f32.to_bits(),
        maximum_temperature_bits: 900.0f32.to_bits(),
        minimum_pressure_bits: 0,
        maximum_pressure_bits: 1,
        minimum_air_bits: 2,
        maximum_air_bits: 3,
        maximum_extent_per_tick_bits: 4,
        thermal_energy_bits: 5,
        pressure_output_bits: 6,
        priority: -2,
        authoring_order: 11,
    };
    let table = ReactionMaterialTable::new(&[rule], &[4, 5, 6, 8]);
    assert_eq!((table.record_slots, table.member_slots), (1, 4));
    assert_eq!(table.record_words.len(), 27);
    assert_eq!(&table.record_words[..8], &[0, 2, 1.0f32.to_bits(), 1, 2, 2, 1.0f32.to_bits(), 1]);
    assert_eq!(&table.record_words[8..16], &[7, 0.5f32.to_bits(), 1, 0, 9, 0.5f32.to_bits(), 1, 0]);
    assert_eq!(table.record_words[16], 300.0f32.to_bits());
    assert_eq!(table.record_words[25], (-2i32) as u32);
    assert_eq!(table.record_words[26], 11);
    let bytes = table.record_upload().unwrap();
    assert_eq!(bytes.len(), 27 * 4);
    assert_eq!(&bytes[100..104], &(-2i32).to_le_bytes());
    assert_eq!(table.member_upload().unwrap(), vec![4, 0, 0, 0, 5, 0, 0, 0, 6, 0, 0, 0, 8, 0, 0, 0]);

    let empty = ReactionMaterialTable::new(&[], &[]);
    assert_eq!((empty.record_slots, empty.member_slots), (1, 1));
    assert!(empty.record_upload().is_none());
    assert!(empty.member_upload().is_none());
}

#[test]
fn fluid_streaming_plans_cover_every_record() {
    let fluids = Fluids::new(2, 2);
    let export = fluids.export_plan();
    assert_eq!(export.passes, vec![(FluidPass::Export, 4)]);
    assert_eq!(export.count_copy_size, 4);
    assert_eq!(export.particles_destination_offset, 16);
    assert_eq!(export.particles_copy_size, 256 * 40);
    let import = fluids.import_plan(130);
    assert_eq!(import.count_word, 130);
    assert_eq!(
        import.passes,
        vec![
            (FluidPass::Import, 3),
            (FluidPass::ClearBuckets, 1),
            (FluidPass::InsertBuckets, 4),
            (FluidPass::Raster, 4),
        ]
    );
    assert_eq!(import.results_copy_size, 520);
    let queued = Fluids::gpu_edit_passes();
    assert_eq!(queued[0], (FluidPass::EditRemove, 0));
    assert_eq!(queued[5], (FluidPass::Raster, 60));
}

#[test]
fn epoch_guarded_sweeps_plan_each_step() {
    let (mut dynamic, buffers) = CellularDynamic::new(3, 2, 256);
    assert_eq!(dynamic.buffered_cell_count, 384);
    assert_eq!(dynamic.parameter_stride, 256);
    assert_eq!(dynamic.epoch, 1);
    assert_eq!((buffers.active_tiles, buffers.active_tile_indices), (6, 24));
    assert_eq!(buffers.parameters_size, 1024);
    assert_eq!(CellularDynamic::new(1, 1, 48).0.parameter_stride, 96);
    let origin = TileCoordinates { x: -2, y: 5 };
    let sweep = dynamic.simulate_cellular_dynamic_tick(origin, 1, 0, [0, 0xc11c_f5c3], 7);
    assert!(!sweep.rollover);
    assert_eq!(sweep.parameter_writes.len(), 4);
    assert_eq!(sweep.parameter_writes[2].0, 512);
    assert_eq!(
        sweep.parameter_writes[2].1,
        [(-2i32) as u32, 5, 3, 2, 1, 0, 0, 0xc11c_f5c3, 7, 3, 384, 4, 0, 0, 0, 0]
    );
    assert_eq!(sweep.compact_workgroups, 1);
    assert_eq!(sweep.movement_passes.len(), 16);
    assert_eq!(sweep.movement_passes[6], (256, 24));
    assert_eq!(dynamic.epoch, 5);
    dynamic.epoch = u32::MAX - 3;
    let sweep = dynamic.simulate_cellular_dynamic_tick(origin, 0, 0, [0, 0], 0);
    assert!(sweep.rollover);
    assert_eq!(sweep.parameter_writes[0].1[9], 1);
    assert_eq!(dynamic.epoch, 5);
}

#[test]
fn cpu_writes_wake_every_touched_tile() {
    let (dynamic, _) = CellularDynamic::new(2, 2, 256);
    let clear = dynamic.clear_cellular_dynamic_kinematics(60, 10);
    assert_eq!((clear.kinematics_offset, clear.kinematics_bytes), (960, 160));
    assert_eq!((clear.epochs_offset, clear.epochs_bytes), (240, 40));
    assert_eq!(clear.tiles_offset, 0);
    assert_eq!(clear.tile_words, vec![0x8000_0008, 0x8000_0008]);
    let clear = dynamic.clear_cellular_dynamic_kinematics(128, 1);
    assert_eq!(clear.tiles_offset, 8);
    assert_eq!(clear.tile_words, vec![0x8000_0008]);
}

#[test]
fn pressure_tables_hold_one_record_per_material_of_each_kind() {
    let stone = PressureMaterial::Static {
        ignore_threshold_bits: 1,
        transmission_bits: 2,
        debris_material: 9,
        debris_yield_rate_bits: 3,
        friction_bits: 4,
        restitution_bits: 5,
    };
    let sand = PressureMaterial::Dynamic { mass_bits: 6, transmission_bits: 7, friction_bits: 8, restitution_bits: 9 };
    let water = PressureMaterial::Fluid { transmission_bits: 10, friction_bits: 11, restitution_bits: 12 };
    let tables = pressure_material_tables(&[water, PressureMaterial::Other, stone, sand]);
    assert_eq!(tables.static_words, vec![1, 2, 9, 3, 4, 5, 0, 0]);
    assert_eq!(tables.dynamic_words, vec![6, 7, 8, 9]);
    assert_eq!(tables.fluid_words, vec![10, 11, 12, 0]);
    assert_eq!((tables.static_slots, tables.dynamic_slots, tables.fluid_slots), (1, 1, 1));
    assert_eq!(table_upload(&tables.fluid_words).unwrap()[..4], [10, 0, 0, 0]);
    let empty = pressure_material_tables(&[PressureMaterial::Other]);
    assert_eq!(empty.static_slots, 1);
    assert!(table_upload(&empty.static_words).is_none());
}
