use engine_physics::simulation::rigid_cellular_body::{CellRectangle, RigidCellularBody};

fn component_positions(components: &[Vec<([i32; 2], u32, u32)>]) -> Vec<Vec<[i32; 2]>> {
    components
        .iter()
        .map(|component| component.iter().map(|cell| cell.0).collect())
        .collect()
}

#[test]
fn removed_bridge_splits_body_local_cells() {
    let material: u32 = 3;
    let cells: Vec<([i32; 2], u32, u32)> = [[0, 0], [1, 0], [2, 0]]
        .into_iter()
        .map(|cell| (cell, material, 0))
        .filter(|cell| cell.0 != [1, 0])
        .collect();
    let components = RigidCellularBody::connected_components(cells);
    assert!(components.len() == 2);
    assert!(components.iter().all(|component| component.len() == 1));
}

#[test]
fn connected_components_start_in_scan_order() {
    let cells = vec![
        ([5, 5], 1u32, 0u32),
        ([0, 1], 1, 0),
        ([0, 0], 1, 0),
        ([1, 0], 1, 0),
        ([4, 5], 1, 0),
    ];
    let components = RigidCellularBody::connected_components(cells);
    let positions = component_positions(&components);
    assert_eq!(positions.len(), 2);
    assert_eq!(positions[0][0], [0, 0]);
    assert_eq!(positions[1][0], [4, 5]);
    let mut first = positions[0].clone();
    first.sort();
    assert_eq!(first, vec![[0, 0], [0, 1], [1, 0]]);
    let mut second = positions[1].clone();
    second.sort();
    assert_eq!(second, vec![[4, 5], [5, 5]]);
}

#[test]
fn connected_components_keep_the_last_cell_listed_at_a_position() {
    let cells = vec![([2, 2], 1u32, 10u32), ([2, 3], 2, 20), ([2, 2], 3, 30)];
    let components = RigidCellularBody::connected_components(cells);
    assert_eq!(components.len(), 1);
    assert_eq!(components[0].len(), 2);
    assert_eq!(components[0][0], ([2, 2], 3, 30));
    assert!(components[0].contains(&([2, 3], 2, 20)));
}

#[test]
fn connected_components_follow_depth_first_neighbor_order() {
    let mut cells = Vec::new();
    for y in 0..2 {
        for x in 0..2 {
            cells.push(([x, y], 0u32, 0u32));
        }
    }
    let components = RigidCellularBody::connected_components(cells);
    assert_eq!(component_positions(&components), vec![vec![[0, 0], [0, 1], [1, 1], [1, 0]]]);
}

#[test]
fn connected_components_of_nothing_is_empty() {
    let components = RigidCellularBody::<u32, u32>::connected_components(Vec::new());
    assert!(components.is_empty());
}

#[test]
fn diagonal_cells_are_separate_components() {
    let cells = vec![([0, 0], 0u32, 0u32), ([1, 1], 0, 0), ([2, 2], 0, 0)];
    let components = RigidCellularBody::connected_components(cells);
    assert_eq!(component_positions(&components), vec![vec![[0, 0]], vec![[1, 1]], vec![[2, 2]]]);
}

#[test]
fn collision_shape_covers_a_block_with_one_rectangle() {
    let mut cells = Vec::new();
    for y in 2..6 {
        for x in 2..6 {
            cells.push(([x, y], 0u32, 0u32));
        }
    }
    let rectangles = RigidCellularBody::collision_shape(&cells);
    assert_eq!(rectangles, vec![CellRectangle { x: 2, y: 2, width: 4, height: 4 }]);
}

#[test]
fn collision_shape_grows_right_then_up() {
    // an L: a row of three with one cell above its left end
    let cells = vec![([0, 0], 0u32, 0u32), ([1, 0], 0, 0), ([2, 0], 0, 0), ([0, 1], 0, 0)];
    let rectangles = RigidCellularBody::collision_shape(&cells);
    assert_eq!(
        rectangles,
        vec![
            CellRectangle { x: 0, y: 0, width: 3, height: 1 },
            CellRectangle { x: 0, y: 1, width: 1, height: 1 },
        ]
    );
}

#[test]
fn collision_shape_stacks_full_rows() {
    let cells = vec![
        ([-1, -1], 0u32, 0u32),
        ([0, -1], 0, 0),
        ([-1, 0], 0, 0),
        ([0, 0], 0, 0),
        ([-1, 1], 0, 0),
    ];
    let rectangles = RigidCellularBody::collision_shape(&cells);
    assert_eq!(
        rectangles,
        vec![
            CellRectangle { x: -1, y: -1, width: 2, height: 2 },
            CellRectangle { x: -1, y: 1, width: 1, height: 1 },
        ]
    );
    let covered: u32 = rectangles.iter().map(|r| r.width * r.height).sum();
    assert_eq!(covered, 5);
}

#[test]
fn collision_shape_of_nothing_is_empty() {
    let cells: Vec<([i32; 2], u32, u32)> = Vec::new();
    assert!(RigidCellularBody::collision_shape(&cells).is_empty());
}
