//! Integer decisions of the rigid-body collision world around the cellular terrain:
//! which terrain patches and dynamic tiles a moving body needs, how their occupancy
//! masks become collision rectangles, and when cached geometry is rebuilt or dropped.

use vstd::prelude::*;
use crate::simulation::rigid_cellular_body::{
    CellRectangle,
    covered_by,
    free_cell,
    greedy_steps,
    in_rectangle,
    is_greedy_rectangle_cover,
    lemma_greedy_extend,
    row_blocked,
};
use crate::tiles::mask_bit;
use crate::simulation::simulation_constants::TERRAIN_COLLISION_PATCH_CELLS;

verus! {

/// Bit `index` of `word`, read by shifting
proof fn lemma_shifted_bit(word: u32, index: u32)
    requires
        index < 32,
    ensures
        ((word >> index) & 1u32 == 1u32) == mask_bit(word, index),
        ((word >> index) & 1u32 == 0u32) == !mask_bit(word, index),
{
    assert(((word >> index) & 1u32 == 1u32) == (word & (1u32 << index) != 0)) by (bit_vector)
        requires
            index < 32,
    ;
    assert(((word >> index) & 1u32 == 0u32) == (word & (1u32 << index) == 0)) by (bit_vector)
        requires
            index < 32,
    ;
}

/// The bits of the run mask of `width` bits starting at bit `start`
proof fn lemma_run_mask(start: u32, width: u32, column: u32)
    requires
        start < 32,
        1 <= width <= 32 - start,
        column < 32,
    ensures
        mask_bit(
            if width == 32 {
                0xffff_ffffu32
            } else {
                (((1u64 << width) - 1) as u32) << start
            },
            column,
        ) == (start <= column < start + width),
{
    if width == 32 {
        assert(0xffff_ffffu32 & (1u32 << column) != 0) by (bit_vector)
            requires
                column < 32,
        ;
    } else {
        assert(((((1u64 << width) - 1) as u32) << start) & (1u32 << column) != 0 <==> (start <= column
            && column < start + width)) by (bit_vector)
            requires
                start < 32,
                1 <= width < 32,
                width <= 32 - start,
                column < 32,
        ;
    }
}

/// Clearing the bits of `mask` keeps exactly the other bits
proof fn lemma_clear_bits(word: u32, mask: u32, column: u32)
    requires
        column < 32,
    ensures
        mask_bit(word & !mask, column) == (mask_bit(word, column) && !mask_bit(mask, column)),
{
    assert(((word & !mask) & (1u32 << column) != 0) == ((word & (1u32 << column) != 0) && !(mask & (1u32
        << column) != 0))) by (bit_vector)
        requires
            column < 32,
    ;
}

/// A word that holds every bit of `mask` has each of those bits set
proof fn lemma_holds_mask(word: u32, mask: u32, column: u32)
    requires
        column < 32,
        word & mask == mask,
        mask_bit(mask, column),
    ensures
        mask_bit(word, column),
{
    assert((word & (1u32 << column) != 0)) by (bit_vector)
        requires
            column < 32,
            word & mask == mask,
            mask & (1u32 << column) != 0,
    ;
}

/// A word that lacks some bit of `mask` has a bit of `mask` unset
proof fn lemma_lacks_mask(word: u32, mask: u32) -> (column: u32)
    requires
        word & mask != mask,
    ensures
        column < 32,
        mask_bit(mask, column),
        !mask_bit(word, column),
{
    let missing: u32 = mask & !word;
    assert(missing != 0) by (bit_vector)
        requires
            word & mask != mask,
            missing == mask & !word,
    ;
    let column: u32 = vstd::std_specs::bits::u32_trailing_zeros(missing);
    vstd::std_specs::bits::axiom_u32_trailing_zeros(missing);
    lemma_shifted_bit(missing, column);
    assert((mask & (1u32 << column) != 0) && (word & (1u32 << column) == 0)) by (bit_vector)
        requires
            column < 32,
            missing == mask & !word,
            missing & (1u32 << column) != 0,
    ;
    column
}

/// The occupancy of the first `size` rows of 32-cell bit rows, as a predicate on
/// cell coordinates: cell (`x`, `y`) is bit `x` of row `y`
pub open spec fn row_occupancy(rows: Seq<u32>, size: int) -> spec_fn(int, int) -> bool {
    |x: int, y: int| 0 <= y < size && 0 <= x < 32 && mask_bit(rows[y], x as u32)
}

/// The remaining rows hold exactly the occupied bits not covered by `rectangles`
pub open spec fn rows_track_cover(
    initial: Seq<u32>,
    current: Seq<u32>,
    size: int,
    rectangles: Seq<CellRectangle>,
) -> bool {
    forall|x: u32, y: int|
        0 <= y < size && x < 32 ==> (#[trigger] mask_bit(current[y], x) <==> free_cell(
            row_occupancy(initial, size),
            rectangles,
            rectangles.len() as int,
            x as int,
            y,
        ))
}

/// Covers the set bits of the first `size` rows with the greedy row-major rectangle
/// cover, clearing those rows.
///
/// Bit `x` of row `y` is cell (`x`, `y`). Rows are scanned from the first; each set
/// bit not yet covered starts a rectangle that spans its run of set bits, then grows
/// over every following row that holds the whole run.
#[verifier::rlimit(60)]
pub fn rectangles_from_rows(rows: &mut Vec<u32>, size: usize) -> (rectangles: Vec<CellRectangle>)
    requires
        size <= old(rows).len(),
        size <= i32::MAX,
    ensures
        is_greedy_rectangle_cover(row_occupancy(old(rows)@, size as int), rectangles@),
        final(rows).len() == old(rows).len(),
        forall|y: int| 0 <= y < size ==> #[trigger] final(rows)@[y] == 0,
        forall|y: int| size <= y < old(rows).len() ==> #[trigger] final(rows)@[y] == old(rows)@[y],
{
    let ghost initial = rows@;
    let ghost occupied = row_occupancy(initial, size as int);
    let mut rectangles: Vec<CellRectangle> = Vec::new();
    let mut y: usize = 0;
    while y < size
        invariant
            initial == old(rows)@,
            occupied == row_occupancy(initial, size as int),
            size <= rows.len() == initial.len(),
            y <= size,
            forall|r: int| size <= r < rows.len() ==> #[trigger] rows@[r] == initial[r],
            forall|r: int| 0 <= r < y ==> #[trigger] rows@[r] == 0,
            rows_track_cover(initial, rows@, size as int, rectangles@),
            greedy_steps(occupied, rectangles@),
            size <= i32::MAX,
        decreases size - y,
    {
        while rows[y] != 0
            invariant
                initial == old(rows)@,
                occupied == row_occupancy(initial, size as int),
                size <= rows.len() == initial.len(),
                y < size,
                forall|r: int| size <= r < rows.len() ==> #[trigger] rows@[r] == initial[r],
                forall|r: int| 0 <= r < y ==> #[trigger] rows@[r] == 0,
                rows_track_cover(initial, rows@, size as int, rectangles@),
                greedy_steps(occupied, rectangles@),
                size <= i32::MAX,
            decreases rows@[y as int],
        {
            let word: u32 = rows[y];
            let x: u32 = word.trailing_zeros();
            let run: u32 = word >> x;
            let width: u32 = run.trailing_ones();
            proof {
                vstd::std_specs::bits::axiom_u32_trailing_zeros(word);
                vstd::std_specs::bits::axiom_u32_trailing_ones(run);
                lemma_shifted_bit(word, x);
                assert(run & 1u32 == 1u32 && run >> 0u32 == run) by (bit_vector)
                    requires
                        x < 32,
                        (word >> x) & 1u32 == 1u32,
                        run == word >> x,
                ;
                assert(width <= 32 - x) by {
                    if width > 32 - x {
                        let top: u32 = (32 - x) as u32;
                        assert((run >> top) & 1u32 == 1u32);
                        assert((run >> top) & 1u32 == 0u32) by (bit_vector)
                            requires
                                x < 32,
                                top == 32 - x,
                                run == word >> x,
                        ;
                    }
                }
            }
            let mask: u32 = if width == 32 {
                u32::MAX
            } else {
                assert(1u64 << width >= 1) by (bit_vector)
                    requires
                        width < 32,
                ;
                (((1u64 << width) - 1) as u32) << x
            };
            proof {
                assert forall|column: u32| column < 32 implies mask_bit(mask, column) == (x <= column
                    < x + width) by {
                    lemma_run_mask(x, width, column);
                }
                assert forall|column: u32| x <= column < x + width implies #[trigger] mask_bit(
                    word,
                    column,
                ) by {
                    let offset: u32 = (column - x) as u32;
                    assert((run >> offset) & 1u32 == 1u32);
                    assert(((word >> x) >> offset) == word >> column) by (bit_vector)
                        requires
                            column < 32,
                            x <= column,
                            offset == column - x,
                    ;
                    lemma_shifted_bit(word, column);
                }
                assert forall|column: u32| column < x implies !#[trigger] mask_bit(word, column) by {
                    assert((word >> column) & 1u32 == 0u32);
                    lemma_shifted_bit(word, column);
                }
                if x + width < 32 {
                    let after: u32 = (x + width) as u32;
                    assert((run >> width) & 1u32 == 0u32);
                    assert(((word >> x) >> width) == word >> after) by (bit_vector)
                        requires
                            after < 32,
                            after == x + width,
                    ;
                    lemma_shifted_bit(word, after);
                }
            }
            let mut height: usize = 1;
            while y + height < size && rows[y + height] & mask == mask
                invariant
                    size <= rows.len(),
                    y < size,
                    x + width <= 32,
                    1 <= height <= size - y,
                    forall|r: int, column: u32|
                        y < r < y + height && x <= column < x + width ==> #[trigger] mask_bit(
                            rows@[r],
                            column,
                        ),
                    forall|column: u32| column < 32 ==> #[trigger] mask_bit(mask, column) == (x <= column
                        < x + width),
                decreases size - y - height,
            {
                proof {
                    let r: int = (y + height) as int;
                    assert forall|column: u32| x <= column < x + width implies #[trigger] mask_bit(
                        rows@[r],
                        column,
                    ) by {
                        lemma_holds_mask(rows@[r], mask, column);
                    }
                }
                height = height + 1;
            }
            let ghost blocked_column: int = if y + height < size {
                let column = lemma_lacks_mask(rows@[(y + height) as int], mask);
                column as int
            } else {
                x as int
            };
            let ghost before = rows@;
            let mut row: usize = y;
            while row < y + height
                invariant
                    size <= rows.len() == before.len(),
                    y <= row <= y + height <= size,
                    forall|r: int| 0 <= r < rows.len() && !(y <= r < row) ==> #[trigger] rows@[r] == before[r],
                    forall|r: int| y <= r < row ==> #[trigger] rows@[r] == before[r] & !mask,
                decreases y + height - row,
            {
                let cleared: u32 = rows[row] & !mask;
                rows.set(row, cleared);
                row = row + 1;
            }
            let rectangle = CellRectangle {
                x: x as i32,
                y: y as i32,
                width,
                height: height as u32,
            };
            proof {
                let m = rectangles@.len() as int;
                assert forall|cx: int, cy: int|
                    #[trigger] in_rectangle(rectangle, cx, cy) implies free_cell(
                    occupied,
                    rectangles@,
                    m,
                    cx,
                    cy,
                ) by {
                    let column = cx as u32;
                    assert(mask_bit(before[cy], column));
                }
                assert forall|cx: int, cy: int|
                    #[trigger] free_cell(occupied, rectangles@, m, cx, cy) implies !(cy < rectangle.y
                    || (cy == rectangle.y && cx < rectangle.x)) by {
                    assert(mask_bit(before[cy], cx as u32));
                    if cy < y {
                        assert(before[cy] == 0);
                        assert(!mask_bit(0u32, cx as u32)) by (bit_vector);
                    }
                }
                assert(!free_cell(occupied, rectangles@, m, rectangle.x + rectangle.width, rectangle.y as int));
                assert(!free_cell(occupied, rectangles@, m, blocked_column, rectangle.y + rectangle.height));
                lemma_greedy_extend(occupied, rectangles@, rectangle);
                let extended = rectangles@.push(rectangle);
                assert forall|cx: u32, cy: int|
                    0 <= cy < size && cx < 32 implies (#[trigger] mask_bit(rows@[cy], cx)
                    <==> free_cell(occupied, extended, m + 1, cx as int, cy)) by {
                    if y <= cy < y + height {
                        lemma_clear_bits(before[cy], mask, cx);
                    }
                }
                assert(rows@[y as int] < before[y as int]) by {
                    let w = before[y as int];
                    assert(mask_bit(mask, x));
                    assert(w & (1u32 << x) != 0);
                    assert(mask & (1u32 << x) != 0);
                    assert((w & !mask) < w) by (bit_vector)
                        requires
                            x < 32,
                            w & (1u32 << x) != 0,
                            mask & (1u32 << x) != 0,
                    ;
                }
            }
            rectangles.push(rectangle);
        }
        y = y + 1;
    }
    proof {
        assert forall|cx: int, cy: int|
            #[trigger] occupied(cx, cy) <==> covered_by(rectangles@, rectangles@.len() as int, cx, cy) by {
            if occupied(cx, cy) && !covered_by(rectangles@, rectangles@.len() as int, cx, cy) {
                assert(rows@[cy] == 0);
                assert(!mask_bit(0u32, cx as u32)) by (bit_vector);
            }
            if covered_by(rectangles@, rectangles@.len() as int, cx, cy) {
                let r = choose|r: int|
                    0 <= r < rectangles@.len() && r < rectangles@.len() && in_rectangle(
                        #[trigger] rectangles@[r],
                        cx,
                        cy,
                    );
                assert(free_cell(occupied, rectangles@, r, cx, cy));
            }
        }
    }
    rectangles
}

/// Bit `column` of the byte at bit `shift` of `word`
proof fn lemma_byte_bit(word: u32, shift: u32, column: u32)
    requires
        shift <= 24,
        column < 8,
    ensures
        mask_bit((word >> shift) & 0xffu32, column) == mask_bit(word, (shift + column) as u32),
        (word >> shift) & 0xffu32 < 256,
{
    assert((((word >> shift) & 0xffu32) & (1u32 << column) != 0) == (word & (1u32 << (shift + column))
        != 0)) by (bit_vector)
        requires
            shift <= 24,
            column < 8,
    ;
    assert((word >> shift) & 0xffu32 < 256) by (bit_vector);
}

/// Bit `column` of four bytes packed from the lowest bit up
proof fn lemma_packed_bit(b0: u32, b1: u32, b2: u32, b3: u32, column: u32)
    requires
        b0 < 256,
        b1 < 256,
        b2 < 256,
        b3 < 256,
        column < 32,
    ensures
        mask_bit(b0 | (b1 << 8u32) | (b2 << 16u32) | (b3 << 24u32), column) == if column < 8 {
            mask_bit(b0, column)
        } else if column < 16 {
            mask_bit(b1, (column - 8) as u32)
        } else if column < 24 {
            mask_bit(b2, (column - 16) as u32)
        } else {
            mask_bit(b3, (column - 24) as u32)
        },
{
    let packed: u32 = b0 | (b1 << 8u32) | (b2 << 16u32) | (b3 << 24u32);
    if column < 8 {
        assert((packed & (1u32 << column) != 0) == (b0 & (1u32 << column) != 0)) by (bit_vector)
            requires
                b0 < 256, b1 < 256, b2 < 256, b3 < 256, column < 8,
                packed == b0 | (b1 << 8u32) | (b2 << 16u32) | (b3 << 24u32),
        ;
    } else if column < 16 {
        let offset: u32 = (column - 8) as u32;
        assert((packed & (1u32 << column) != 0) == (b1 & (1u32 << offset) != 0)) by (bit_vector)
            requires
                b0 < 256, b1 < 256, b2 < 256, b3 < 256, 8 <= column < 16, offset == column - 8,
                packed == b0 | (b1 << 8u32) | (b2 << 16u32) | (b3 << 24u32),
        ;
    } else if column < 24 {
        let offset: u32 = (column - 16) as u32;
        assert((packed & (1u32 << column) != 0) == (b2 & (1u32 << offset) != 0)) by (bit_vector)
            requires
                b0 < 256, b1 < 256, b2 < 256, b3 < 256, 16 <= column < 24, offset == column - 16,
                packed == b0 | (b1 << 8u32) | (b2 << 16u32) | (b3 << 24u32),
        ;
    } else {
        let offset: u32 = (column - 24) as u32;
        assert((packed & (1u32 << column) != 0) == (b3 & (1u32 << offset) != 0)) by (bit_vector)
            requires
                b0 < 256, b1 < 256, b2 < 256, b3 < 256, 24 <= column < 32, offset == column - 24,
                packed == b0 | (b1 << 8u32) | (b2 << 16u32) | (b3 << 24u32),
        ;
    }
}

/// Whether cell (`x`, `y`) of an 8 by 8 tile mask is occupied: cell row `y` is byte
/// `y % 4` of word `y / 4`, and cell column `x` is bit `x` of that byte
pub open spec fn tile_cell(mask: [u32; 2], x: int, y: int) -> bool {
    mask_bit(mask[y / 4], ((y % 4) * 8 + x) as u32)
}

/// Whether cell (`x`, `y`) of a 4 by 4 tile terrain patch is occupied; tile
/// (`x / 8`, `y / 8`) is entry `(y / 8) * 4 + x / 8` of `masks`
pub open spec fn patch_cell(masks: [[u32; 2]; 16], x: int, y: int) -> bool {
    tile_cell(masks[(y / 8) * 4 + x / 8], x % 8, y % 8)
}

/// The occupancy of a 32 by 32 cell terrain patch
pub open spec fn patch_occupancy(masks: [[u32; 2]; 16]) -> spec_fn(int, int) -> bool {
    |x: int, y: int| 0 <= x < 32 && 0 <= y < 32 && patch_cell(masks, x, y)
}

/// The occupancy of one 8 by 8 cell tile
pub open spec fn tile_occupancy(mask: [u32; 2]) -> spec_fn(int, int) -> bool {
    |x: int, y: int| 0 <= x < 8 && 0 <= y < 8 && tile_cell(mask, x, y)
}

/// The 32 cell rows of a 4 by 4 tile terrain patch, with bit `x` of row `y` for cell (`x`, `y`)
pub fn terrain_patch_rows(masks: &[[u32; 2]; 16]) -> (rows: Vec<u32>)
    ensures
        rows.len() == 32,
        forall|x: u32, y: int|
            x < 32 && 0 <= y < 32 ==> #[trigger] mask_bit(rows@[y], x) == patch_cell(*masks, x as int, y),
{
    let mut rows: Vec<u32> = Vec::new();
    let mut y: usize = 0;
    while y < 32
        invariant
            y <= 32,
            rows.len() == y,
            forall|x: u32, r: int|
                x < 32 && 0 <= r < y ==> #[trigger] mask_bit(rows@[r], x) == patch_cell(*masks, x as int, r),
        decreases 32 - y,
    {
        let base: usize = (y / 8) * 4;
        let word: usize = (y % 8) / 4;
        let shift: u32 = ((y % 4) * 8) as u32;
        let b0: u32 = (masks[base][word] >> shift) & 0xff;
        let b1: u32 = (masks[base + 1][word] >> shift) & 0xff;
        let b2: u32 = (masks[base + 2][word] >> shift) & 0xff;
        let b3: u32 = (masks[base + 3][word] >> shift) & 0xff;
        let row: u32 = b0 | (b1 << 8u32) | (b2 << 16u32) | (b3 << 24u32);
        proof {
            assert forall|x: u32| x < 32 implies #[trigger] mask_bit(row, x) == patch_cell(
                *masks,
                x as int,
                y as int,
            ) by {
                let cell: u32 = x % 8;
                lemma_byte_bit(masks[base as int][word as int], shift, cell);
                lemma_byte_bit(masks[base + 1][word as int], shift, cell);
                lemma_byte_bit(masks[base + 2][word as int], shift, cell);
                lemma_byte_bit(masks[base + 3][word as int], shift, cell);
                lemma_packed_bit(b0, b1, b2, b3, x);
            }
        }
        rows.push(row);
        y = y + 1;
    }
    rows
}

/// The 8 cell rows of one tile, with bit `x` of row `y` for cell (`x`, `y`)
pub fn dynamic_tile_rows(mask: [u32; 2]) -> (rows: Vec<u32>)
    ensures
        rows.len() == 8,
        forall|x: u32, y: int|
            x < 32 && 0 <= y < 8 ==> #[trigger] mask_bit(rows@[y], x) == (x < 8 && tile_cell(
                mask,
                x as int,
                y,
            )),
{
    let mut rows: Vec<u32> = Vec::new();
    let mut y: usize = 0;
    while y < 8
        invariant
            y <= 8,
            rows.len() == y,
            forall|x: u32, r: int|
                x < 32 && 0 <= r < y ==> #[trigger] mask_bit(rows@[r], x) == (x < 8 && tile_cell(
                    mask,
                    x as int,
                    r,
                )),
        decreases 8 - y,
    {
        let shift: u32 = ((y % 4) * 8) as u32;
        let row: u32 = (mask[y / 4] >> shift) & 0xff;
        proof {
            assert forall|x: u32| x < 32 implies #[trigger] mask_bit(row, x) == (x < 8 && tile_cell(
                mask,
                x as int,
                y as int,
            )) by {
                if x < 8 {
                    lemma_byte_bit(mask[(y / 4) as int], shift, x);
                } else {
                    let word = mask[(y / 4) as int];
                    assert(((word >> shift) & 0xffu32) & (1u32 << x) == 0) by (bit_vector)
                        requires
                            8 <= x < 32,
                    ;
                }
            }
        }
        rows.push(row);
        y = y + 1;
    }
    rows
}

/// The greedy rectangle cover of a 4 by 4 tile terrain patch; empty when the patch
/// holds no cell
pub fn terrain_patch_shape(masks: &[[u32; 2]; 16]) -> (rectangles: Vec<CellRectangle>)
    ensures
        is_greedy_rectangle_cover(patch_occupancy(*masks), rectangles@),
{
    let mut rows: Vec<u32> = terrain_patch_rows(masks);
    let ghost filled = rows@;
    let rectangles = rectangles_from_rows(&mut rows, 32);
    proof {
        assert(row_occupancy(filled, 32) =~= patch_occupancy(*masks)) by {
            assert forall|x: int, y: int| #[trigger] row_occupancy(filled, 32)(x, y) == patch_occupancy(
                *masks,
            )(x, y) by {
                if 0 <= x < 32 && 0 <= y < 32 {
                    assert(mask_bit(filled[y], x as u32) == patch_cell(*masks, x, y));
                }
            }
        }
    }
    rectangles
}

/// The greedy rectangle cover of one dynamic tile; empty when the tile holds no cell.
/// The number of rectangles is the length of the result.
pub fn dynamic_tile_shape(mask: [u32; 2]) -> (rectangles: Vec<CellRectangle>)
    ensures
        is_greedy_rectangle_cover(tile_occupancy(mask), rectangles@),
{
    let mut rows: Vec<u32> = dynamic_tile_rows(mask);
    let ghost filled = rows@;
    let rectangles = rectangles_from_rows(&mut rows, 8);
    proof {
        assert(row_occupancy(filled, 8) =~= tile_occupancy(mask)) by {
            assert forall|x: int, y: int| #[trigger] row_occupancy(filled, 8)(x, y) == tile_occupancy(
                mask,
            )(x, y) by {
                if 0 <= x < 32 && 0 <= y < 8 {
                    assert(mask_bit(filled[y], x as u32) == (x < 8 && tile_cell(mask, x, y)));
                }
            }
        }
    }
    rectangles
}

/// Collision group bit of rigid cellular bodies
pub const GROUP_RIGID: u32 = 1;
/// Collision group bit of actor pawns
pub const GROUP_PAWN: u32 = 2;
/// Collision group bit of static terrain patches
pub const GROUP_TERRAIN: u32 = 4;
/// Collision group bit of dynamic cellular tiles
pub const GROUP_DYNAMIC: u32 = 8;
/// Every collision group
pub const GROUP_ALL: u32 = 0xffff_ffff;

/// Which collision groups a collider belongs to and which it interacts with
#[derive(Clone, Copy, Debug, PartialEq, Eq, Structural)]
pub struct CollisionGroups {
    pub memberships: u32,
    pub filter: u32,
}

impl CollisionGroups {
    /// Whether two colliders interact: each belongs to a group the other accepts
    pub fn test(&self, other: &CollisionGroups) -> (interacts: bool)
        ensures
            interacts == (self.memberships & other.filter != 0 && other.memberships & self.filter != 0),
    {
        self.memberships & other.filter != 0 && other.memberships & self.filter != 0
    }
}

/// Rigid bodies solve contacts against everything
pub fn rigid_solver_groups() -> (groups: CollisionGroups)
    ensures
        groups == (CollisionGroups { memberships: GROUP_RIGID, filter: GROUP_ALL }),
{
    CollisionGroups { memberships: GROUP_RIGID, filter: GROUP_ALL }
}

/// Rigid bodies collide with everything
pub fn rigid_collision_groups() -> (groups: CollisionGroups)
    ensures
        groups == (CollisionGroups { memberships: GROUP_RIGID, filter: GROUP_ALL }),
{
    CollisionGroups { memberships: GROUP_RIGID, filter: GROUP_ALL }
}

/// Static terrain collides with rigid bodies only
pub fn terrain_collision_groups() -> (groups: CollisionGroups)
    ensures
        groups == (CollisionGroups { memberships: GROUP_TERRAIN, filter: GROUP_RIGID }),
{
    CollisionGroups { memberships: GROUP_TERRAIN, filter: GROUP_RIGID }
}

/// Static terrain solves contacts with rigid bodies only
pub fn terrain_solver_groups() -> (groups: CollisionGroups)
    ensures
        groups == (CollisionGroups { memberships: GROUP_TERRAIN, filter: GROUP_RIGID }),
{
    CollisionGroups { memberships: GROUP_TERRAIN, filter: GROUP_RIGID }
}

/// Dynamic tiles collide with rigid bodies only
pub fn dynamic_collision_groups() -> (groups: CollisionGroups)
    ensures
        groups == (CollisionGroups { memberships: GROUP_DYNAMIC, filter: GROUP_RIGID }),
{
    CollisionGroups { memberships: GROUP_DYNAMIC, filter: GROUP_RIGID }
}

/// Dynamic tiles solve contacts with rigid bodies only
pub fn dynamic_solver_groups() -> (groups: CollisionGroups)
    ensures
        groups == (CollisionGroups { memberships: GROUP_DYNAMIC, filter: GROUP_RIGID }),
{
    CollisionGroups { memberships: GROUP_DYNAMIC, filter: GROUP_RIGID }
}

/// Pawn proxies collide with rigid bodies only
pub fn pawn_collision_groups() -> (groups: CollisionGroups)
    ensures
        groups == (CollisionGroups { memberships: GROUP_PAWN, filter: GROUP_RIGID }),
{
    CollisionGroups { memberships: GROUP_PAWN, filter: GROUP_RIGID }
}

/// Pawn proxies solve contacts with rigid bodies only
pub fn pawn_solver_groups() -> (groups: CollisionGroups)
    ensures
        groups == (CollisionGroups { memberships: GROUP_PAWN, filter: GROUP_RIGID }),
{
    CollisionGroups { memberships: GROUP_PAWN, filter: GROUP_RIGID }
}

/// Pawn movement queries see rigid bodies, static terrain and dynamic tiles
pub fn pawn_query_groups() -> (groups: CollisionGroups)
    ensures
        groups == (CollisionGroups { memberships: GROUP_RIGID | GROUP_TERRAIN | GROUP_DYNAMIC, filter: GROUP_ALL }),
{
    CollisionGroups { memberships: GROUP_RIGID | GROUP_TERRAIN | GROUP_DYNAMIC, filter: GROUP_ALL }
}

/// Rigid bodies interact with every other kind of collider, while terrain, dynamic
/// tiles and pawns interact with rigid bodies only: never with each other or with
/// themselves
pub proof fn lemma_collision_group_interactions()
    ensures
        ({
            let rigid = CollisionGroups { memberships: GROUP_RIGID, filter: GROUP_ALL };
            let terrain = CollisionGroups { memberships: GROUP_TERRAIN, filter: GROUP_RIGID };
            let dynamic = CollisionGroups { memberships: GROUP_DYNAMIC, filter: GROUP_RIGID };
            let pawn = CollisionGroups { memberships: GROUP_PAWN, filter: GROUP_RIGID };
            let interacts = |a: CollisionGroups, b: CollisionGroups|
                a.memberships & b.filter != 0 && b.memberships & a.filter != 0;
            &&& interacts(rigid, rigid)
            &&& interacts(rigid, terrain)
            &&& interacts(rigid, dynamic)
            &&& interacts(rigid, pawn)
            &&& !interacts(terrain, terrain)
            &&& !interacts(terrain, dynamic)
            &&& !interacts(terrain, pawn)
            &&& !interacts(dynamic, dynamic)
            &&& !interacts(dynamic, pawn)
            &&& !interacts(pawn, pawn)
        }),
{
    assert(1u32 & 0xffff_ffffu32 != 0) by (bit_vector);
    assert(4u32 & 0xffff_ffffu32 != 0) by (bit_vector);
    assert(8u32 & 0xffff_ffffu32 != 0) by (bit_vector);
    assert(2u32 & 0xffff_ffffu32 != 0) by (bit_vector);
    assert(4u32 & 1u32 == 0) by (bit_vector);
    assert(8u32 & 1u32 == 0) by (bit_vector);
    assert(2u32 & 1u32 == 0) by (bit_vector);
    assert(1u32 & 1u32 != 0) by (bit_vector);
}

/// The position of a cached dynamic tile in the tile grid
#[derive(Clone, Copy, Debug, PartialEq, Eq, Hash, Structural)]
pub struct DynamicTileKey {
    pub x: i32,
    pub y: i32,
}

/// The position of a cached static terrain patch in the patch grid
#[derive(Clone, Copy, Debug, PartialEq, Eq, Hash, Structural)]
pub struct TerrainPatchKey {
    pub x: i32,
    pub y: i32,
}

/// A cached dynamic tile: its collider, if one was inserted, the mask its collider
/// was built from, and the last tick that required it
#[derive(Clone, Copy, Debug)]
pub struct DynamicTile<H> {
    pub collider: Option<H>,
    pub mask: [u32; 2],
    pub last_required_tick: u64,
}

/// A cached static terrain patch: its collider, if it has one, the masks its collider
/// was built from, and the last tick that required it
#[derive(Clone, Copy, Debug)]
pub struct TerrainPatch<H> {
    pub collider: Option<H>,
    pub masks: [[u32; 2]; 16],
    pub last_required_tick: u64,
}

/// What refreshing a required dynamic tile asks of the collision world
pub enum DynamicTileAction<H> {
    /// The mask did not change
    Unchanged,
    /// The tile emptied and has no collider
    Cleared,
    /// The tile emptied: disable its collider
    Disable { collider: H },
    /// Give the existing collider this shape, enabling it when it is disabled
    Reshape { collider: H, enable: bool, rectangles: Vec<CellRectangle> },
    /// Insert a collider of this shape at the tile and record it in the tile
    Insert { rectangles: Vec<CellRectangle> },
}

/// What refreshing a required terrain patch asks of the collision world
pub enum TerrainPatchAction<H> {
    /// The masks did not change
    Unchanged,
    /// The masks changed and the patch still has no cell and no collider
    Cleared,
    /// Give the existing collider this shape
    Reshape { collider: H, rectangles: Vec<CellRectangle> },
    /// The patch emptied: remove its collider
    Remove { collider: H },
    /// Insert a collider of this shape at the patch and record it in the patch
    Insert { rectangles: Vec<CellRectangle> },
}

/// Whether two tile masks are equal, word by word
pub fn same_tile_mask(a: [u32; 2], b: [u32; 2]) -> (same: bool)
    ensures
        same == (a[0] == b[0] && a[1] == b[1]),
{
    a[0] == b[0] && a[1] == b[1]
}

/// Whether two patches of tile masks are equal, word by word
pub fn same_patch_masks(a: &[[u32; 2]; 16], b: &[[u32; 2]; 16]) -> (same: bool)
    ensures
        same == forall|i: int| 0 <= i < 16 ==> (#[trigger] a[i])[0] == b[i][0] && a[i][1] == b[i][1],
{
    let mut i: usize = 0;
    while i < 16
        invariant
            i <= 16,
            forall|j: int| 0 <= j < i ==> (#[trigger] a[j])[0] == b[j][0] && a[j][1] == b[j][1],
        decreases 16 - i,
    {
        if a[i][0] != b[i][0] || a[i][1] != b[i][1] {
            return false;
        }
        i = i + 1;
    }
    true
}

/// The outcome of refreshing a required dynamic tile at `tick` with its current
/// mask: `next` is the refreshed tile and `action` what the collision world must do.
///
/// A tile seen for the first time starts empty, without a collider. The tile is
/// marked required at `tick`; when its mask changed, the mask is stored and its
/// collider is disabled (empty mask), reshaped and enabled when disabled, or
/// inserted.
pub open spec fn is_dynamic_refresh<H>(
    tile: Option<DynamicTile<H>>,
    mask: [u32; 2],
    tick: u64,
    collider_enabled: bool,
    next: DynamicTile<H>,
    action: DynamicTileAction<H>,
) -> bool {
    let prior = match tile {
        Some(t) => t,
        None => DynamicTile { collider: None, mask: [0u32, 0u32], last_required_tick: tick },
    };
    &&& next.collider == prior.collider
    &&& next.last_required_tick == tick
    &&& next.mask == mask
    &&& if prior.mask[0] == mask[0] && prior.mask[1] == mask[1] {
        action is Unchanged
    } else if mask[0] == 0 && mask[1] == 0 {
        match prior.collider {
            Some(h) => action == DynamicTileAction::<H>::Disable { collider: h },
            None => action is Cleared,
        }
    } else {
        match prior.collider {
            Some(h) => action matches DynamicTileAction::Reshape { collider, enable, rectangles }
                && collider == h && enable == !collider_enabled && is_greedy_rectangle_cover(
                tile_occupancy(mask),
                rectangles@,
            ),
            None => action matches DynamicTileAction::Insert { rectangles }
                && is_greedy_rectangle_cover(tile_occupancy(mask), rectangles@),
        }
    }
}

/// Refreshes a required dynamic tile at `tick` with its current snapshot mask;
/// `collider_enabled` tells whether its collider, if any, is enabled
pub fn refresh_dynamic_tile<H: Copy>(
    tile: Option<DynamicTile<H>>,
    mask: [u32; 2],
    tick: u64,
    collider_enabled: bool,
) -> (refreshed: (DynamicTile<H>, DynamicTileAction<H>))
    ensures
        is_dynamic_refresh(tile, mask, tick, collider_enabled, refreshed.0, refreshed.1),
{
    let prior: DynamicTile<H> = match tile {
        Some(t) => t,
        None => DynamicTile { collider: None, mask: [0, 0], last_required_tick: tick },
    };
    let next = DynamicTile { collider: prior.collider, mask, last_required_tick: tick };
    if same_tile_mask(prior.mask, mask) {
        assert(next.mask =~= prior.mask);
        return (next, DynamicTileAction::Unchanged);
    }
    if mask[0] == 0 && mask[1] == 0 {
        let action = match prior.collider {
            Some(h) => DynamicTileAction::Disable { collider: h },
            None => DynamicTileAction::Cleared,
        };
        return (next, action);
    }
    let rectangles: Vec<CellRectangle> = dynamic_tile_shape(mask);
    let action = match prior.collider {
        Some(h) => DynamicTileAction::Reshape { collider: h, enable: !collider_enabled, rectangles },
        None => DynamicTileAction::Insert { rectangles },
    };
    (next, action)
}

/// The outcome of refreshing a required terrain patch at `tick` with its current
/// masks: `next` is the refreshed patch and `action` what the collision world must do.
///
/// A patch seen for the first time counts as changed. The patch is marked required
/// at `tick`; when its masks changed, they are stored and its collider is reshaped,
/// removed (no cell left), or inserted (first cells).
pub open spec fn is_patch_refresh<H>(
    patch: Option<TerrainPatch<H>>,
    masks: [[u32; 2]; 16],
    tick: u64,
    next: TerrainPatch<H>,
    action: TerrainPatchAction<H>,
) -> bool {
    let changed = patch_changed(patch, masks);
    let prior_collider = match patch {
        Some(p) => p.collider,
        None => None,
    };
    &&& next.last_required_tick == tick
    &&& !changed ==> action is Unchanged && next.collider == prior_collider && next.masks
        == patch->0.masks
    &&& changed ==> next.masks == masks && match action {
        TerrainPatchAction::Unchanged => false,
        TerrainPatchAction::Cleared => prior_collider is None && next.collider is None
            && is_greedy_rectangle_cover(patch_occupancy(masks), Seq::<CellRectangle>::empty()),
        TerrainPatchAction::Reshape { collider, rectangles } => prior_collider == Some(collider)
            && next.collider == prior_collider && rectangles.len() > 0
            && is_greedy_rectangle_cover(patch_occupancy(masks), rectangles@),
        TerrainPatchAction::Remove { collider } => prior_collider == Some(collider)
            && next.collider is None && is_greedy_rectangle_cover(
            patch_occupancy(masks),
            Seq::<CellRectangle>::empty(),
        ),
        TerrainPatchAction::Insert { rectangles } => prior_collider is None && next.collider
            is None && rectangles.len() > 0 && is_greedy_rectangle_cover(
            patch_occupancy(masks),
            rectangles@,
        ),
    }
}

/// Whether a patch's masks differ from `masks`; a patch seen for the first time
/// counts as changed
pub open spec fn patch_changed<H>(patch: Option<TerrainPatch<H>>, masks: [[u32; 2]; 16]) -> bool {
    match patch {
        None => true,
        Some(p) => exists|i: int| 0 <= i < 16 && !((#[trigger] p.masks[i])[0] == masks[i][0] && p.masks[i][1] == masks[i][1]),
    }
}

/// Refreshes a required terrain patch at `tick` with its current snapshot masks
pub fn refresh_terrain_patch<H: Copy>(
    patch: Option<TerrainPatch<H>>,
    masks: [[u32; 2]; 16],
    tick: u64,
) -> (refreshed: (TerrainPatch<H>, TerrainPatchAction<H>))
    ensures
        is_patch_refresh(patch, masks, tick, refreshed.0, refreshed.1),
{
    let changed: bool = match &patch {
        None => true,
        Some(p) => !same_patch_masks(&p.masks, &masks),
    };
    let prior_collider: Option<H> = match &patch {
        Some(p) => p.collider,
        None => None,
    };
    if !changed {
        let p = patch.unwrap();
        return (TerrainPatch { collider: p.collider, masks: p.masks, last_required_tick: tick }, TerrainPatchAction::Unchanged);
    }
    let rectangles: Vec<CellRectangle> = terrain_patch_shape(&masks);
    let empty: bool = rectangles.len() == 0;
    proof {
        if empty {
            assert(rectangles@ =~= Seq::<CellRectangle>::empty());
        }
    }
    match prior_collider {
        Some(h) => {
            if empty {
                (TerrainPatch { collider: None, masks, last_required_tick: tick }, TerrainPatchAction::Remove { collider: h })
            } else {
                (TerrainPatch { collider: Some(h), masks, last_required_tick: tick }, TerrainPatchAction::Reshape { collider: h, rectangles })
            }
        },
        None => {
            if empty {
                (TerrainPatch { collider: None, masks, last_required_tick: tick }, TerrainPatchAction::Cleared)
            } else {
                (TerrainPatch { collider: None, masks, last_required_tick: tick }, TerrainPatchAction::Insert { rectangles })
            }
        },
    }
}

/// Whether an entry last required at `last_required_tick` has gone unrequired for
/// more than `retention` ticks by `tick`
pub fn retention_expired(tick: u64, last_required_tick: u64, retention: u64) -> (expired: bool)
    requires
        last_required_tick <= tick,
    ensures
        expired == (tick - last_required_tick > retention),
{
    tick - last_required_tick > retention
}

/// An inclusive box of grid positions
#[derive(Clone, Copy, Debug, PartialEq, Eq, Structural)]
pub struct GridSpan {
    pub low_x: i32,
    pub low_y: i32,
    pub high_x: i32,
    pub high_y: i32,
}

/// The dynamic tiles a moving box needs: the tiles from one before its lowest
/// floored tile to one after its highest floored tile, on both axes
pub fn dynamic_tile_span(low: [i32; 2], high: [i32; 2]) -> (span: GridSpan)
    requires
        low[0] > i32::MIN,
        low[1] > i32::MIN,
        high[0] < i32::MAX,
        high[1] < i32::MAX,
    ensures
        span.low_x == low[0] - 1,
        span.low_y == low[1] - 1,
        span.high_x == high[0] + 1,
        span.high_y == high[1] + 1,
{
    GridSpan { low_x: low[0] - 1, low_y: low[1] - 1, high_x: high[0] + 1, high_y: high[1] + 1 }
}

/// The patch holding world cell coordinate `cell` (floored division by the patch side)
pub fn patch_of_cell(cell: i32) -> (patch: i32)
    ensures
        patch == cell as int / TERRAIN_COLLISION_PATCH_CELLS as int,
{
    let shifted: u64 = (cell as i64 + 0x8000_0000i64) as u64;
    let quotient: u64 = shifted / 32;
    proof {
        vstd::arithmetic::div_mod::lemma_fundamental_div_mod(shifted as int, 32);
        vstd::arithmetic::div_mod::lemma_mod_bound(shifted as int, 32);
        vstd::arithmetic::div_mod::lemma_fundamental_div_mod_converse(
            cell as int,
            32,
            quotient as int - 0x400_0000int,
            shifted as int % 32,
        );
    }
    (quotient as i64 - 0x400_0000i64) as i32
}

/// The terrain patches a moving box needs: the patches from one before the patch of
/// its lowest cell to one after the patch of its highest cell, on both axes
pub fn terrain_patch_span(low_cell: [i32; 2], high_cell: [i32; 2]) -> (span: GridSpan)
    ensures
        span.low_x == low_cell[0] as int / 32 - 1,
        span.low_y == low_cell[1] as int / 32 - 1,
        span.high_x == high_cell[0] as int / 32 + 1,
        span.high_y == high_cell[1] as int / 32 + 1,
{
    GridSpan {
        low_x: patch_of_cell(low_cell[0]) - 1,
        low_y: patch_of_cell(low_cell[1]) - 1,
        high_x: patch_of_cell(high_cell[0]) + 1,
        high_y: patch_of_cell(high_cell[1]) + 1,
    }
}

} // verus!
