//! Tile and cell coordinates shared by every cellular system.
//!
//! A tile is an 8 by 8 block of cells. World cell coordinates map to the tile
//! that contains them by floored division, and to a cell inside that tile by
//! the non-negative remainder.

use vstd::prelude::*;

verus! {

/// The number of cells along one side of a tile
pub const TILE_CELLS: i32 = 8;

/// The logical coordinates of one tile in the world tile grid
#[derive(Clone, Copy, Debug, PartialEq, Eq, Structural)]
pub struct TileCoordinates {
    pub x: i32,
    pub y: i32,
}

/// The logical coordinates of one cell in the world cell grid
#[derive(Clone, Copy, Debug, PartialEq, Eq, Structural)]
pub struct CellCoordinates {
    pub x: i32,
    pub y: i32,
}

/// The tile coordinate containing a world cell coordinate (floored division)
pub open spec fn spec_tile_of(cell: int) -> int {
    cell / 8
}

/// The coordinate of a world cell inside its tile (non-negative remainder)
pub open spec fn spec_cell_in_tile(cell: int) -> int {
    cell % 8
}

/// Splits a world cell coordinate into its tile coordinate and in-tile offset
pub fn split_cell_coordinate(cell: i32) -> (result: (i32, u32))
    ensures
        result.0 as int == spec_tile_of(cell as int),
        result.1 as int == spec_cell_in_tile(cell as int),
        result.1 < 8,
{
    // shift into the non-negative range by a multiple of eight so plain division floors
    let shifted: u64 = (cell as i64 + 0x8000_0000i64) as u64;
    let quotient: u64 = shifted / 8;
    let remainder: u64 = shifted % 8;
    proof {
        vstd::arithmetic::div_mod::lemma_fundamental_div_mod(shifted as int, 8);
        vstd::arithmetic::div_mod::lemma_mod_bound(shifted as int, 8);
        assert(cell as int == (quotient as int - 0x1000_0000int) * 8 + remainder as int);
        vstd::arithmetic::div_mod::lemma_fundamental_div_mod_converse(
            cell as int,
            8,
            quotient as int - 0x1000_0000int,
            remainder as int,
        );
    }
    ((quotient as i64 - 0x1000_0000i64) as i32, remainder as u32)
}

/// Whether bit `bit` of an occupancy word is set
pub open spec fn mask_bit(word: u32, bit: u32) -> bool {
    word & (1u32 << bit) != 0
}

/// The row-major index of world tile (`tile_x`, `tile_y`) in a `width` by `height`
/// tile grid whose bottom-left tile is `origin`, or `None` when it lies outside
pub open spec fn spec_grid_tile_index(
    origin: TileCoordinates,
    width: u16,
    height: u16,
    tile_x: int,
    tile_y: int,
) -> Option<int> {
    let grid_x: int = tile_x - origin.x;
    let grid_y: int = tile_y - origin.y;
    if 0 <= grid_x < width && 0 <= grid_y < height {
        Some(grid_y * width + grid_x)
    } else {
        None
    }
}

/// The index of a world cell inside its tile's 64-bit occupancy mask
pub open spec fn spec_cell_bit_index(cell_x: int, cell_y: int) -> int {
    spec_cell_in_tile(cell_y) * 8 + spec_cell_in_tile(cell_x)
}

/// Whether a world cell is occupied in a tile mask array laid out as a grid,
/// or `None` when the cell's tile lies outside the grid
pub open spec fn spec_grid_cell_occupied(
    masks: Seq<[u32; 2]>,
    origin: TileCoordinates,
    width: u16,
    height: u16,
    cell_x: int,
    cell_y: int,
) -> Option<bool> {
    match spec_grid_tile_index(origin, width, height, spec_tile_of(cell_x), spec_tile_of(cell_y)) {
        None => None,
        Some(tile) => {
            let bit: int = spec_cell_bit_index(cell_x, cell_y);
            Some(mask_bit(masks[tile][bit / 32], (bit % 32) as u32))
        },
    }
}

/// A grid index stays inside a grid of `width * height` tiles
pub proof fn lemma_grid_index_bound(grid_x: int, grid_y: int, width: int, height: int)
    requires
        0 <= grid_x < width,
        0 <= grid_y < height,
    ensures
        0 <= grid_y * width + grid_x < width * height,
{
    assert(0 <= grid_y * width + grid_x < width * height) by (nonlinear_arith)
        requires
            0 <= grid_x < width,
            0 <= grid_y < height,
    ;
}

/// Distinct in-grid tiles have distinct grid indices
pub proof fn lemma_grid_index_injective(a_x: int, a_y: int, b_x: int, b_y: int, width: int)
    requires
        0 <= a_x < width,
        0 <= b_x < width,
        0 <= a_y,
        0 <= b_y,
        a_y * width + a_x == b_y * width + b_x,
    ensures
        a_x == b_x,
        a_y == b_y,
{
    vstd::arithmetic::div_mod::lemma_fundamental_div_mod_converse(
        a_y * width + a_x, width, a_y, a_x);
    vstd::arithmetic::div_mod::lemma_fundamental_div_mod_converse(
        b_y * width + b_x, width, b_y, b_x);
}

/// Looks up a world tile in a grid, computing offsets without overflow
pub fn grid_tile_index(
    origin: TileCoordinates,
    width: u16,
    height: u16,
    tile_x: i64,
    tile_y: i64,
) -> (index: Option<usize>)
    requires
        -0x100_0000_0000 <= tile_x <= 0x100_0000_0000,
        -0x100_0000_0000 <= tile_y <= 0x100_0000_0000,
    ensures
        match spec_grid_tile_index(origin, width, height, tile_x as int, tile_y as int) {
            None => index is None,
            Some(expected) => index matches Some(i) && i as int == expected && 0 <= expected < width * height,
        },
{
    let grid_x: i64 = tile_x - origin.x as i64;
    let grid_y: i64 = tile_y - origin.y as i64;
    if grid_x < 0 || grid_y < 0 || grid_x >= width as i64 || grid_y >= height as i64 {
        return None;
    }
    proof {
        lemma_grid_index_bound(grid_x as int, grid_y as int, width as int, height as int);
        assert(width * height <= 0xffff * 0xffff) by (nonlinear_arith)
            requires width <= 0xffff, height <= 0xffff;
    }
    Some(grid_y as usize * width as usize + grid_x as usize)
}

/// Reads one bit of a two-word tile occupancy mask
pub fn tile_mask_bit(mask: [u32; 2], bit: u32) -> (occupied: bool)
    requires
        bit < 64,
    ensures
        occupied == mask_bit(mask[(bit / 32) as int], bit % 32),
{
    let word: u32 = if bit < 32 { mask[0] } else { mask[1] };
    word & (1u32 << (bit % 32)) != 0
}

} // verus!
