use vstd::prelude::*;

use crate::tiles::{
    grid_tile_index, spec_grid_cell_occupied, split_cell_coordinate, tile_mask_bit,
    TileCoordinates,
};

verus! {

/// A completed CPU collision snapshot in logical buffered-tile order
pub struct CollisionOccupancySnapshot {
    /// The dispatch order used to reject older out-of-order completions
    pub sequence: u64,
    /// The logical coordinates of the snapshot's bottom-left tile
    pub origin: TileCoordinates,
    /// The snapshot width in tiles
    pub width: u16,
    /// The snapshot height in tiles
    pub height: u16,
    /// Two occupancy words for each logical tile in row-major order
    pub masks: Vec<[u32; 2]>,
}

impl CollisionOccupancySnapshot {
    /// The snapshot holds exactly one mask per tile of its grid
    pub open spec fn wf(&self) -> bool {
        self.masks@.len() == self.width * self.height
    }

    /// Whether a world cell is occupied, or `None` outside the snapshot
    pub open spec fn spec_is_cell_occupied(&self, x: int, y: int) -> Option<bool> {
        spec_grid_cell_occupied(self.masks@, self.origin, self.width, self.height, x, y)
    }

    /// Returns whether a world cell is occupied, or `None` when it is outside this snapshot
    pub fn is_cell_occupied(&self, x: i32, y: i32) -> (occupied: Option<bool>)
        requires
            self.masks@.len() >= self.width * self.height,
        ensures
            occupied == self.spec_is_cell_occupied(x as int, y as int),
    {
        let (tile_x, cell_x) = split_cell_coordinate(x);
        let (tile_y, cell_y) = split_cell_coordinate(y);
        match grid_tile_index(self.origin, self.width, self.height, tile_x as i64, tile_y as i64) {
            None => None,
            Some(tile) => Some(tile_mask_bit(self.masks[tile], cell_y * 8 + cell_x)),
        }
    }
}

} // verus!
