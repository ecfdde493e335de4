use vstd::prelude::*;

use crate::tiles::{
    grid_tile_index, lemma_grid_index_injective, mask_bit, spec_cell_bit_index, spec_cell_in_tile,
    spec_grid_cell_occupied, spec_grid_tile_index, spec_tile_of, split_cell_coordinate,
    tile_mask_bit, TileCoordinates,
};

verus! {

/// A completed CPU collision snapshot in logical buffered-tile order
#[derive(Clone)]
pub struct CollisionOccupancySnapshot {
    /// The dispatch order used to reject older out-of-order completions
    pub sequence: u64,
    /// The logical coordinates of the snapshot's bottom-left tile
    pub origin: TileCoordinates,
    /// The snapshot width in tiles
    pub width: u16,
    /// The snapshot height in tiles
    pub height: u16,
    /// Static occupancy words for each logical tile in row-major order
    pub static_masks: Vec<[u32; 2]>,
    /// Dynamic occupancy words for each logical tile in row-major order
    pub dynamic_masks: Vec<[u32; 2]>,
}

/// The mask of a world tile in a grid-ordered mask array, or empty outside the grid
pub open spec fn spec_grid_tile_mask(
    masks: Seq<[u32; 2]>,
    origin: TileCoordinates,
    width: u16,
    height: u16,
    tile_x: int,
    tile_y: int,
) -> [u32; 2] {
    match spec_grid_tile_index(origin, width, height, tile_x, tile_y) {
        Some(tile) => masks[tile],
        None => [0u32, 0u32],
    }
}

/// Clearing one bit of a word leaves every other bit unchanged and clears that bit
pub proof fn lemma_clear_bit(word: u32, cleared: u32, bit: u32)
    requires
        cleared < 32,
        bit < 32,
    ensures
        mask_bit(word & !(1u32 << cleared), bit) == (bit != cleared && mask_bit(word, bit)),
{
    assert((word & !(1u32 << cleared)) & (1u32 << bit) != 0 <==> (bit != cleared && word & (1u32
        << bit) != 0)) by (bit_vector)
        requires
            cleared < 32,
            bit < 32,
    ;
}

impl CollisionOccupancySnapshot {
    /// Both mask arrays hold exactly one mask per tile of the snapshot grid
    pub open spec fn wf(&self) -> bool {
        &&& self.static_masks@.len() == self.width * self.height
        &&& self.dynamic_masks@.len() == self.width * self.height
    }

    /// Whether a world cell holds static material, or `None` outside the snapshot
    pub open spec fn spec_static_cell(&self, x: int, y: int) -> Option<bool> {
        spec_grid_cell_occupied(self.static_masks@, self.origin, self.width, self.height, x, y)
    }

    /// Whether a world cell holds dynamic material, or `None` outside the snapshot
    pub open spec fn spec_dynamic_cell(&self, x: int, y: int) -> Option<bool> {
        spec_grid_cell_occupied(self.dynamic_masks@, self.origin, self.width, self.height, x, y)
    }

    /// The static mask of the `index`-th tile (row-major, 4 by 4) of a terrain patch
    pub open spec fn spec_patch_tile_mask(&self, world_patch_x: int, world_patch_y: int, index: int) -> [u32; 2] {
        spec_grid_tile_mask(
            self.static_masks@,
            self.origin,
            self.width,
            self.height,
            world_patch_x * 4 + index % 4,
            world_patch_y * 4 + index / 4,
        )
    }

    /// Returns the dynamic occupancy words of one world tile, empty outside the snapshot
    pub fn dynamic_tile_mask(&self, world_tile_x: i32, world_tile_y: i32) -> (mask: [u32; 2])
        requires
            self.dynamic_masks@.len() >= self.width * self.height,
        ensures
            mask == spec_grid_tile_mask(
                self.dynamic_masks@,
                self.origin,
                self.width,
                self.height,
                world_tile_x as int,
                world_tile_y as int,
            ),
    {
        match grid_tile_index(
            self.origin,
            self.width,
            self.height,
            world_tile_x as i64,
            world_tile_y as i64,
        ) {
            None => [0u32; 2],
            Some(tile) => self.dynamic_masks[tile],
        }
    }

    /// Returns the static occupancy words of the 4 by 4 tiles of one terrain patch
    pub fn static_patch_masks(&self, world_patch_x: i32, world_patch_y: i32) -> (patch_masks: [[u32; 2]; 16])
        requires
            self.static_masks@.len() >= self.width * self.height,
        ensures
            forall|patch_tile_x: int, patch_tile_y: int|
                0 <= patch_tile_x < 4 && 0 <= patch_tile_y < 4 ==> #[trigger] patch_masks[patch_tile_y * 4 + patch_tile_x]
                    == spec_grid_tile_mask(
                    self.static_masks@,
                    self.origin,
                    self.width,
                    self.height,
                    world_patch_x * 4 + patch_tile_x,
                    world_patch_y * 4 + patch_tile_y,
                ),
    {
        let mut patch_masks: [[u32; 2]; 16] = [[0u32; 2]; 16];
        let mut index: usize = 0;
        while index < 16
            invariant
                0 <= index <= 16,
                self.static_masks@.len() >= self.width * self.height,
                forall|i: int|
                    0 <= i < index ==> #[trigger] patch_masks[i] == self.spec_patch_tile_mask(
                        world_patch_x as int,
                        world_patch_y as int,
                        i,
                    ),
            decreases 16 - index,
        {
            let tile_x: i64 = world_patch_x as i64 * 4 + (index % 4) as i64;
            let tile_y: i64 = world_patch_y as i64 * 4 + (index / 4) as i64;
            let mask: [u32; 2] = match grid_tile_index(self.origin, self.width, self.height, tile_x, tile_y) {
                Some(tile) => self.static_masks[tile],
                None => [0u32; 2],
            };
            patch_masks[index] = mask;
            assert(patch_masks[index as int] == self.spec_patch_tile_mask(
                world_patch_x as int,
                world_patch_y as int,
                index as int,
            ));
            index = index + 1;
        }
        assert forall|patch_tile_x: int, patch_tile_y: int|
            0 <= patch_tile_x < 4 && 0 <= patch_tile_y < 4 implies #[trigger] patch_masks[patch_tile_y * 4 + patch_tile_x]
                == spec_grid_tile_mask(
                self.static_masks@,
                self.origin,
                self.width,
                self.height,
                world_patch_x * 4 + patch_tile_x,
                world_patch_y * 4 + patch_tile_y,
            ) by {
            let i: int = patch_tile_y * 4 + patch_tile_x;
            vstd::arithmetic::div_mod::lemma_fundamental_div_mod_converse(i, 4, patch_tile_y, patch_tile_x);
            assert(patch_masks[i] == self.spec_patch_tile_mask(world_patch_x as int, world_patch_y as int, i));
        }
        patch_masks
    }

    /// Returns whether a world cell contains static material
    pub fn is_static_cell_occupied(&self, world_cell_x: i32, world_cell_y: i32) -> (occupied: Option<bool>)
        requires
            self.static_masks@.len() >= self.width * self.height,
        ensures
            occupied == self.spec_static_cell(world_cell_x as int, world_cell_y as int),
    {
        Self::is_cell_occupied(self, &self.static_masks, world_cell_x, world_cell_y)
    }

    /// Looks up one world cell in a provided logical tile-mask array
    fn is_cell_occupied(
        &self,
        occupancy_masks: &Vec<[u32; 2]>,
        world_cell_x: i32,
        world_cell_y: i32,
    ) -> (occupied: Option<bool>)
        requires
            occupancy_masks@.len() >= self.width * self.height,
        ensures
            occupied == spec_grid_cell_occupied(
                occupancy_masks@,
                self.origin,
                self.width,
                self.height,
                world_cell_x as int,
                world_cell_y as int,
            ),
    {
        let (tile_x, cell_x) = split_cell_coordinate(world_cell_x);
        let (tile_y, cell_y) = split_cell_coordinate(world_cell_y);
        match grid_tile_index(self.origin, self.width, self.height, tile_x as i64, tile_y as i64) {
            None => None,
            Some(tile) => Some(tile_mask_bit(occupancy_masks[tile], cell_y * 8 + cell_x)),
        }
    }

    /// Removes one static cell from this derived snapshot
    pub fn clear_static_cell(&mut self, world_cell_x: i32, world_cell_y: i32)
        requires
            old(self).wf(),
        ensures
            final(self).wf(),
            final(self).sequence == old(self).sequence,
            final(self).origin == old(self).origin,
            final(self).width == old(self).width,
            final(self).height == old(self).height,
            final(self).dynamic_masks@ == old(self).dynamic_masks@,
            forall|x: int, y: int|
                #[trigger] final(self).spec_static_cell(x, y) == if x == world_cell_x && y
                    == world_cell_y && old(self).spec_static_cell(x, y) is Some {
                    Some(false)
                } else {
                    old(self).spec_static_cell(x, y)
                },
    {
        let (tile_x, cell_x) = split_cell_coordinate(world_cell_x);
        let (tile_y, cell_y) = split_cell_coordinate(world_cell_y);
        let tile: usize = match grid_tile_index(
            self.origin,
            self.width,
            self.height,
            tile_x as i64,
            tile_y as i64,
        ) {
            None => {
                return;
            },
            Some(tile) => tile,
        };
        let ghost previous = *self;
        let cell: u32 = cell_y * 8 + cell_x;
        let word: u32 = cell / 32;
        let bit: u32 = cell % 32;
        let mut mask: [u32; 2] = self.static_masks[tile];
        let cleared: u32 = mask[word as usize] & !(1u32 << bit);
        mask[word as usize] = cleared;
        self.static_masks.set(tile, mask);
        proof {
            assert(self.static_masks@ == previous.static_masks@.update(tile as int, mask));
            assert forall|x: int, y: int|
                #[trigger] self.spec_static_cell(x, y) == if x == world_cell_x && y == world_cell_y
                    && previous.spec_static_cell(x, y) is Some {
                    Some(false)
                } else {
                    previous.spec_static_cell(x, y)
                } by {
                let other = spec_grid_tile_index(
                    self.origin,
                    self.width,
                    self.height,
                    spec_tile_of(x),
                    spec_tile_of(y),
                );
                if let Some(other_tile) = other {
                    let other_cell: int = spec_cell_bit_index(x, y);
                    let other_word: int = other_cell / 32;
                    let other_bit: u32 = (other_cell % 32) as u32;
                    assert(0 <= other_cell < 64);
                    crate::tiles::lemma_grid_index_bound(
                        spec_tile_of(x) - self.origin.x,
                        spec_tile_of(y) - self.origin.y,
                        self.width as int,
                        self.height as int,
                    );
                    if other_tile != tile as int {
                        assert(self.static_masks@[other_tile] == previous.static_masks@[other_tile]);
                        assert(x != world_cell_x || y != world_cell_y);
                    } else {
                        lemma_grid_index_injective(
                            spec_tile_of(x) - self.origin.x,
                            spec_tile_of(y) - self.origin.y,
                            tile_x - self.origin.x,
                            tile_y - self.origin.y,
                            self.width as int,
                        );
                        assert(self.static_masks@[other_tile] == mask);
                        if other_word != word as int {
                            assert(mask[other_word] == previous.static_masks@[other_tile][other_word]);
                            assert(other_cell != cell as int);
                            assert(x != world_cell_x || y != world_cell_y);
                        } else {
                            lemma_clear_bit(previous.static_masks@[tile as int][word as int], bit, other_bit);
                            assert(mask[other_word] == previous.static_masks@[tile as int][word as int] & !(1u32 << bit));
                            vstd::arithmetic::div_mod::lemma_fundamental_div_mod(x, 8);
                            vstd::arithmetic::div_mod::lemma_fundamental_div_mod(world_cell_x as int, 8);
                            vstd::arithmetic::div_mod::lemma_fundamental_div_mod(y, 8);
                            vstd::arithmetic::div_mod::lemma_fundamental_div_mod(world_cell_y as int, 8);
                            vstd::arithmetic::div_mod::lemma_mod_bound(x, 8);
                            vstd::arithmetic::div_mod::lemma_mod_bound(y, 8);
                            if other_bit == bit {
                                assert(other_cell == cell as int);
                                vstd::arithmetic::div_mod::lemma_fundamental_div_mod_converse(
                                    other_cell, 8, spec_cell_in_tile(y), spec_cell_in_tile(x));
                                vstd::arithmetic::div_mod::lemma_fundamental_div_mod_converse(
                                    cell as int, 8, cell_y as int, cell_x as int);
                                assert(x == world_cell_x && y == world_cell_y);
                            } else {
                                assert(other_cell != cell as int);
                                assert(x != world_cell_x || y != world_cell_y);
                            }
                        }
                    }
                }
            }
        }
    }
}

} // verus!
