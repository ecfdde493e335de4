use engine_physics::simulation::scene_physics_world::{
    DynamicTileAction, DynamicTileKey, GridSpan, TerrainPatchAction, TerrainPatchKey,
};
use engine_physics::simulation::terrain_bridge::{pack_grid_key, TerrainBridge, TileDemand};
use engine_physics::simulation_cellulars::collision_occupancy_snapshot::CollisionOccupancySnapshot;
use engine_physics::tiles::TileCoordinates;

fn snapshot(static_mask: [u32; 2], dynamic_mask: [u32; 2]) -> CollisionOccupancySnapshot {
    CollisionOccupancySnapshot {
        sequence: 0,
        origin: TileCoordinates { x: -8, y: -8 },
        width: 16,
        height: 16,
        static_masks: vec![static_mask; 256],
        dynamic_masks: vec![dynamic_mask; 256],
    }
}

#[test]
fn grid_keys_are_distinct_per_position() {
    assert_eq!(pack_grid_key(0, 0), 0);
    assert_eq!(pack_grid_key(1, 2), (1u64 << 32) | 2);
    assert_eq!(pack_grid_key(-1, -1), u64::MAX);
    assert_ne!(pack_grid_key(-1, 0), pack_grid_key(0, -1));
}

#[test]
fn demand_lists_each_position_once_in_scan_order() {
    let mut demand = TileDemand::new();
    demand.require_span(GridSpan { low_x: 0, low_y: 0, high_x: 1, high_y: 1 });
    demand.require_span(GridSpan { low_x: 1, low_y: 1, high_x: 2, high_y: 1 });
    demand.require_span(GridSpan { low_x: 5, low_y: 5, high_x: 4, high_y: 5 });
    assert_eq!(demand.positions, vec![(0, 0), (1, 0), (0, 1), (1, 1), (2, 1)]);
}

#[test]
fn dynamic_tile_lifecycle_counts_its_work() {
    let sand = snapshot([0; 2], [0xff, 0]);
    let empty = snapshot([0; 2], [0; 2]);
    let key = DynamicTileKey { x: 2, y: -3 };
    let mut bridge: TerrainBridge<u32> = TerrainBridge::new();
    bridge.begin_tick();
    assert_eq!(bridge.statistics.collision_snapshot_age, 1);
    bridge.note_snapshot_update();
    let action = bridge.refresh_dynamic(&sand, key, false);
    assert!(matches!(action, DynamicTileAction::Insert { ref rectangles } if rectangles.len() == 1));
    bridge.attach_dynamic_collider(key, 41);
    assert_eq!(bridge.dynamic_collider(key), Some(41));
    assert_eq!(bridge.statistics.dynamic_mask_changes, 1);
    assert_eq!(bridge.statistics.dynamic_cells_scanned, 64);
    assert_eq!(bridge.statistics.dynamic_shape_rebuilds, 1);
    assert_eq!(bridge.statistics.dynamic_rectangles_emitted, 1);

    bridge.begin_tick();
    assert_eq!(bridge.statistics.collision_snapshot_age, 1);
    assert!(matches!(bridge.refresh_dynamic(&sand, key, true), DynamicTileAction::Unchanged));
    assert!(matches!(
        bridge.refresh_dynamic(&empty, key, true),
        DynamicTileAction::Disable { collider: 41 }
    ));
    assert_eq!(bridge.statistics.dynamic_enable_disable_changes, 1);
    assert!(matches!(
        bridge.refresh_dynamic(&sand, key, false),
        DynamicTileAction::Reshape { collider: 41, enable: true, .. }
    ));
    assert_eq!(bridge.statistics.dynamic_set_shape_calls, 1);
    assert_eq!(bridge.statistics.dynamic_enable_disable_changes, 2);
    assert_eq!(bridge.statistics.dynamic_mask_changes, 3);

    for _ in 0..30 {
        bridge.begin_tick();
    }
    assert!(bridge.expire_dynamic_tiles().is_empty());
    assert_eq!(bridge.statistics.dynamic_cached_tiles, 1);
    bridge.begin_tick();
    assert_eq!(bridge.expire_dynamic_tiles(), vec![41]);
    assert_eq!(bridge.statistics.dynamic_cached_tiles, 0);
    assert_eq!(bridge.dynamic_collider(key), None);
}

#[test]
fn terrain_patch_lifecycle_counts_its_work() {
    let floor = snapshot([0xff, 0], [0; 2]);
    let open = snapshot([0; 2], [0; 2]);
    let solid = TerrainPatchKey { x: 0, y: 0 };
    let air = TerrainPatchKey { x: 1, y: 0 };
    let mut bridge: TerrainBridge<u32> = TerrainBridge::new();
    bridge.begin_tick();
    assert!(matches!(bridge.refresh_patch(&floor, solid), TerrainPatchAction::Insert { .. }));
    bridge.attach_patch_collider(solid, 7);
    assert!(matches!(bridge.refresh_patch(&open, air), TerrainPatchAction::Cleared));
    assert_eq!(bridge.statistics.patch_rebuilds, 2);
    assert_eq!(bridge.statistics.patch_cells_scanned, 2048);
    assert!(bridge.expire_terrain_patches().is_empty());
    assert_eq!(bridge.statistics.active_patches, 2);
    assert_eq!(bridge.statistics.collider_patches, 1);

    bridge.begin_tick();
    assert!(matches!(bridge.refresh_patch(&floor, solid), TerrainPatchAction::Unchanged));
    assert_eq!(bridge.statistics.patch_rebuilds, 2);
    for _ in 0..121 {
        bridge.begin_tick();
    }
    assert_eq!(bridge.expire_terrain_patches(), vec![7]);
    assert_eq!(bridge.statistics.active_patches, 0);
    assert_eq!(bridge.statistics.collider_patches, 0);
}

#[test]
fn distant_unsettled_sand_needs_no_geometry() {
    let mut bridge: TerrainBridge<u32> = TerrainBridge::new();
    for tick in 0..100u32 {
        let sand = if tick % 2 == 0 { [u32::MAX; 2] } else { [0; 2] };
        let _snapshot = snapshot([0; 2], sand);
        bridge.note_snapshot_update();
        bridge.begin_tick();
        let demand = TileDemand::new();
        bridge.set_required_dynamic_tiles(demand.positions.len());
        assert!(bridge.expire_dynamic_tiles().is_empty());
    }
    assert_eq!(bridge.statistics.dynamic_required_tiles, 0);
    assert_eq!(bridge.statistics.dynamic_shape_rebuilds, 0);
    assert_eq!(bridge.statistics.dynamic_cells_scanned, 0);
}
