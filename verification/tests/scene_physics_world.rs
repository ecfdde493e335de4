use engine_physics::simulation::rigid_cellular_body::CellRectangle;
use engine_physics::simulation::scene_physics_world::{
    dynamic_collision_groups, dynamic_solver_groups, dynamic_tile_rows, dynamic_tile_shape,
    dynamic_tile_span, pawn_collision_groups, pawn_query_groups, pawn_solver_groups,
    rectangles_from_rows, refresh_dynamic_tile, refresh_terrain_patch, retention_expired,
    rigid_collision_groups, rigid_solver_groups, terrain_collision_groups, terrain_patch_rows,
    terrain_patch_shape, terrain_patch_span, terrain_solver_groups, DynamicTileAction,
    TerrainPatchAction,
};
use engine_physics::simulation::simulation_constants::{
    DYNAMIC_TILE_RETENTION_TICKS, TERRAIN_PATCH_RETENTION_TICKS,
};
use engine_physics::simulation_cellulars::collision_occupancy_snapshot::CollisionOccupancySnapshot;
use engine_physics::tiles::TileCoordinates;
use rapier2d::prelude::{Pose, SharedShape};

fn compound(rectangles: &[CellRectangle]) -> SharedShape {
    SharedShape::compound(
        rectangles
            .iter()
            .map(|r| {
                let (w, h) = (r.width as f32, r.height as f32);
                (
                    Pose::translation(r.x as f32 / 8.0 + w / 16.0, r.y as f32 / 8.0 + h / 16.0),
                    SharedShape::cuboid(w / 16.0, h / 16.0),
                )
            })
            .collect(),
    )
}

fn assert_patch_bounds(masks: [[u32; 2]; 16], origin: [f32; 2], expected: [f32; 4]) {
    let rectangles = terrain_patch_shape(&masks);
    assert!(!rectangles.is_empty());
    let aabb = compound(&rectangles).compute_aabb(&Pose::translation(origin[0], origin[1]));
    assert!(
        (aabb.mins.x - expected[0]).abs() < 1e-5
            && (aabb.mins.y - expected[1]).abs() < 1e-5
            && (aabb.maxs.x - expected[2]).abs() < 1e-5
            && (aabb.maxs.y - expected[3]).abs() < 1e-5,
        "actual {:?}..{:?}",
        aabb.mins,
        aabb.maxs
    );
}

#[test]
fn full_and_almost_full_patch_keep_the_same_exterior_bounds() {
    let full = [[u32::MAX; 2]; 16];
    assert_patch_bounds(full, [0.0, -4.0], [0.0, -4.0, 4.0, 0.0]);
    assert_patch_bounds(full, [-8.0, 12.0], [-8.0, 12.0, -4.0, 16.0]);
    let mut hole = full;
    hole[5][0] &= !(1 << 9); // Interior cell; exterior must not move.
    assert_patch_bounds(hole, [0.0, -4.0], [0.0, -4.0, 4.0, 0.0]);
}

#[test]
fn dynamic_group_filters_and_neighbor_tiles_have_no_gap() {
    let rigid = rigid_collision_groups();
    let dynamic = dynamic_collision_groups();
    let static_terrain = terrain_collision_groups();
    assert!(rigid.test(&dynamic));
    assert!(rigid.test(&pawn_solver_groups()));
    assert!(!pawn_solver_groups().test(&terrain_solver_groups()));
    assert!(!pawn_solver_groups().test(&dynamic_solver_groups()));
    assert!(rigid_solver_groups().test(&dynamic_solver_groups()));
    assert!(!dynamic.test(&static_terrain));
    assert!(!dynamic.test(&dynamic));
    let shape = compound(&dynamic_tile_shape([u32::MAX; 2]));
    let left = shape.compute_aabb(&Pose::translation(-2.0, 0.0));
    let right = shape.compute_aabb(&Pose::translation(-1.0, 0.0));
    assert!((left.maxs.x - right.mins.x).abs() < 1e-5);
}

#[test]
fn dynamic_tile_geometry_and_cache_are_local() {
    assert!(dynamic_tile_shape([0; 2]).is_empty());
    let negative = CollisionOccupancySnapshot {
        sequence: 0,
        origin: TileCoordinates { x: -3, y: -2 },
        width: 1,
        height: 1,
        static_masks: vec![[0; 2]],
        dynamic_masks: vec![[u32::MAX; 2]],
    };
    assert_eq!(negative.dynamic_tile_mask(-3, -2), [u32::MAX; 2]);
    assert_eq!(negative.dynamic_tile_mask(-4, -2), [0; 2]);
    for (mask, expected, rectangles) in [
        ([u32::MAX; 2], [-3.0, -2.0, -2.0, -1.0], 1),
        ([u32::MAX, 0], [-3.0, -2.0, -2.0, -1.5], 1),
    ] {
        let shape = dynamic_tile_shape(mask);
        assert_eq!(shape.len(), rectangles);
        let aabb = compound(&shape).compute_aabb(&Pose::translation(-3.0, -2.0));
        assert!((aabb.mins.x - expected[0]).abs() < 1e-5);
        assert!((aabb.mins.y - expected[1]).abs() < 1e-5);
        assert!((aabb.maxs.x - expected[2]).abs() < 1e-5);
        assert!((aabb.maxs.y - expected[3]).abs() < 1e-5);
    }
    // The near tile's cache across snapshots: built once, kept while its mask holds,
    // reshaped when it changes, disabled when it empties, and re-enabled in place.
    let (tile, action) = refresh_dynamic_tile::<u32>(None, [1, 0], 1, false);
    assert!(matches!(action, DynamicTileAction::Insert { ref rectangles } if rectangles.len() == 1));
    let tile = engine_physics::simulation::scene_physics_world::DynamicTile { collider: Some(77), ..tile };
    let (tile, action) = refresh_dynamic_tile(Some(tile), [1, 0], 2, true);
    assert!(matches!(action, DynamicTileAction::Unchanged));
    let (tile, action) = refresh_dynamic_tile(Some(tile), [1, 0], 3, true);
    assert!(matches!(action, DynamicTileAction::Unchanged));
    let (tile, action) = refresh_dynamic_tile(Some(tile), [3, 0], 4, true);
    assert!(matches!(action, DynamicTileAction::Reshape { collider: 77, enable: false, .. }));
    let (tile, action) = refresh_dynamic_tile(Some(tile), [0; 2], 5, true);
    assert!(matches!(action, DynamicTileAction::Disable { collider: 77 }));
    let (tile, action) = refresh_dynamic_tile(Some(tile), [1, 0], 6, false);
    assert!(matches!(action, DynamicTileAction::Reshape { collider: 77, enable: true, .. }));
    assert_eq!(tile.collider, Some(77));
    assert_eq!(tile.last_required_tick, 6);
}

#[test]
fn empty_dynamic_tile_seen_first_needs_no_collider() {
    let (tile, action) = refresh_dynamic_tile::<u32>(None, [0, 0], 9, false);
    assert!(matches!(action, DynamicTileAction::Unchanged));
    assert_eq!(tile.collider, None);
    let (_, action) = refresh_dynamic_tile(Some(tile), [0, 4], 10, false);
    assert!(matches!(action, DynamicTileAction::Insert { .. }));
    let (_, action) = refresh_dynamic_tile(Some(tile), [0, 0], 10, false);
    assert!(matches!(action, DynamicTileAction::Unchanged));
}

#[test]
fn terrain_patch_refresh_decisions() {
    let empty = [[0u32; 2]; 16];
    let (patch, action) = refresh_terrain_patch::<u32>(None, empty, 1);
    assert!(matches!(action, TerrainPatchAction::Cleared));
    let mut floor = empty;
    floor[0] = [0xff, 0];
    let (patch, action) = refresh_terrain_patch(Some(patch), floor, 2);
    assert!(matches!(action, TerrainPatchAction::Insert { ref rectangles }
        if rectangles == &vec![CellRectangle { x: 0, y: 0, width: 8, height: 1 }]));
    let patch = engine_physics::simulation::scene_physics_world::TerrainPatch { collider: Some(5), ..patch };
    let (patch, action) = refresh_terrain_patch(Some(patch), floor, 3);
    assert!(matches!(action, TerrainPatchAction::Unchanged));
    assert_eq!(patch.last_required_tick, 3);
    floor[1] = [0xff, 0];
    let (patch, action) = refresh_terrain_patch(Some(patch), floor, 4);
    assert!(matches!(action, TerrainPatchAction::Reshape { collider: 5, ref rectangles }
        if rectangles == &vec![CellRectangle { x: 0, y: 0, width: 16, height: 1 }]));
    let (patch, action) = refresh_terrain_patch(Some(patch), empty, 5);
    assert!(matches!(action, TerrainPatchAction::Remove { collider: 5 }));
    assert_eq!(patch.collider, None);
}

#[test]
fn cached_geometry_expires_after_its_retention() {
    assert!(!retention_expired(130, 10, TERRAIN_PATCH_RETENTION_TICKS));
    assert!(retention_expired(131, 10, TERRAIN_PATCH_RETENTION_TICKS));
    assert!(!retention_expired(40, 10, DYNAMIC_TILE_RETENTION_TICKS));
    assert!(retention_expired(41, 10, DYNAMIC_TILE_RETENTION_TICKS));
}

#[test]
fn demanded_spans_pad_by_one() {
    let span = dynamic_tile_span([-2, 0], [1, 3]);
    assert_eq!((span.low_x, span.low_y, span.high_x, span.high_y), (-3, -1, 2, 4));
    let span = terrain_patch_span([-1, 31], [32, 64]);
    assert_eq!((span.low_x, span.low_y, span.high_x, span.high_y), (-2, -1, 2, 3));
    let span = terrain_patch_span([i32::MIN, -33], [i32::MAX, 0]);
    assert_eq!((span.low_x, span.low_y), (-67108864 - 1, -3));
    assert_eq!((span.high_x, span.high_y), (67108863 + 1, 1));
}

#[test]
fn pawn_queries_see_every_solid_group() {
    let query = pawn_query_groups();
    assert!(query.test(&rigid_collision_groups()));
    assert_eq!(query.memberships, 1 | 4 | 8);
    assert!(pawn_collision_groups().test(&rigid_collision_groups()));
    assert!(!pawn_collision_groups().test(&pawn_collision_groups()));
}

#[test]
fn patch_rows_place_tiles_by_byte() {
    let mut masks = [[0u32; 2]; 16];
    masks[0] = [0x0000_0001, 0];
    masks[5] = [0, 0x8000_0000];
    let rows = terrain_patch_rows(&masks);
    assert_eq!(rows.len(), 32);
    assert_eq!(rows[0], 1);
    // tile (1, 1), cell (7, 7): patch cell (15, 15)
    assert_eq!(rows[15], 1 << 15);
    assert_eq!(rows.iter().filter(|row| **row != 0).count(), 2);
    let tile = dynamic_tile_rows([0x0302_0100, 0x0706_0504]);
    assert_eq!(tile, vec![0, 1, 2, 3, 4, 5, 6, 7]);
}

#[test]
fn rows_become_greedy_rectangles() {
    let mut rows = vec![0b0110, 0b0110, 0b0111, 0, 1 << 31];
    let rectangles = rectangles_from_rows(&mut rows, 5);
    assert_eq!(
        rectangles,
        vec![
            CellRectangle { x: 1, y: 0, width: 2, height: 3 },
            CellRectangle { x: 0, y: 2, width: 1, height: 1 },
            CellRectangle { x: 31, y: 4, width: 1, height: 1 },
        ]
    );
    assert!(rows.iter().all(|row| *row == 0));
    let mut full = vec![u32::MAX; 2];
    assert_eq!(
        rectangles_from_rows(&mut full, 1),
        vec![CellRectangle { x: 0, y: 0, width: 32, height: 1 }]
    );
    assert_eq!(full, vec![0, u32::MAX]);
}
