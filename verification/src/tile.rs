//! Tile values: a tile index in the low 29 bits and flip flags in the top three.

use vstd::prelude::*;

verus! {

/// Sentinel value for cells occupied by multi-cell tiles (but not the base cell)
pub const OCCUPIED_CELL: u32 = 0xFFFF_FFFFu32;

/// Bit flag for horizontal flip (mirror on Y axis)
pub const TILE_FLIP_X: u32 = 0x8000_0000u32;

/// Bit flag for vertical flip (mirror on X axis)
pub const TILE_FLIP_Y: u32 = 0x4000_0000u32;

/// Bit flag for diagonal flip (for 90 degree rotations, combined with X/Y)
pub const TILE_FLIP_DIAGONAL: u32 = 0x2000_0000u32;

/// Mask to extract just the tile index (without flip flags)
pub const TILE_INDEX_MASK: u32 = 0x1FFF_FFFFu32;

/// Mask for all flip flags
pub const TILE_FLIP_MASK: u32 = 0xE000_0000u32;

/// The index part of a tile value, as a number: the value modulo 2^29.
pub open spec fn spec_tile_index(tile: u32) -> int {
    tile as int % 0x2000_0000
}

/// Whether a tile value carries the horizontal flip flag (its top bit).
pub open spec fn has_flip_x(tile: u32) -> bool {
    tile >= 0x8000_0000u32
}

/// Whether a tile value carries the vertical flip flag (its second bit from the top).
pub open spec fn has_flip_y(tile: u32) -> bool {
    (tile / 0x4000_0000u32) % 2 == 1
}

/// The tile value built from an index and two flip flags.
pub open spec fn spec_tile_with_flips(index: u32, flip_x: bool, flip_y: bool) -> int {
    spec_tile_index(index) + (if flip_x { 0x8000_0000int } else { 0 }) + (if flip_y {
        0x4000_0000int
    } else {
        0
    })
}

/// A tile value with its horizontal flip flag inverted.
pub open spec fn spec_toggle_flip_x(tile: u32) -> int {
    if has_flip_x(tile) { tile - 0x8000_0000int } else { tile + 0x8000_0000int }
}

/// A tile value with its vertical flip flag inverted.
pub open spec fn spec_toggle_flip_y(tile: u32) -> int {
    if has_flip_y(tile) { tile - 0x4000_0000int } else { tile + 0x4000_0000int }
}

/// Extract the tile index from a tile value (strips flip flags)
pub fn tile_index(tile: u32) -> (r: u32)
    ensures
        r == tile & TILE_INDEX_MASK,
        r == spec_tile_index(tile),
{
    assert(tile & 0x1FFF_FFFFu32 == tile % 0x2000_0000u32) by (bit_vector);
    tile & TILE_INDEX_MASK
}

/// Check if a tile has horizontal flip
pub fn tile_flip_x(tile: u32) -> (r: bool)
    ensures
        r == has_flip_x(tile),
{
    assert((tile & 0x8000_0000u32 != 0) == (tile >= 0x8000_0000u32)) by (bit_vector);
    tile & TILE_FLIP_X != 0
}

/// Check if a tile has vertical flip
pub fn tile_flip_y(tile: u32) -> (r: bool)
    ensures
        r == has_flip_y(tile),
{
    assert((tile & 0x4000_0000u32 != 0) == ((tile / 0x4000_0000u32) % 2 == 1)) by (bit_vector);
    tile & TILE_FLIP_Y != 0
}

/// Create a tile value with flip flags
pub fn tile_with_flips(index: u32, flip_x: bool, flip_y: bool) -> (r: u32)
    ensures
        r == spec_tile_with_flips(index, flip_x, flip_y),
{
    let mut tile = index & TILE_INDEX_MASK;
    assert(index & 0x1FFF_FFFFu32 == index % 0x2000_0000u32) by (bit_vector);
    if flip_x {
        assert(tile < 0x2000_0000u32 ==> tile | 0x8000_0000u32 == tile + 0x8000_0000u32)
            by (bit_vector);
        tile = tile | TILE_FLIP_X;
    }
    if flip_y {
        assert(tile % 0x8000_0000u32 < 0x2000_0000u32 ==> tile | 0x4000_0000u32 == tile
            + 0x4000_0000u32) by (bit_vector);
        tile = tile | TILE_FLIP_Y;
    }
    tile
}

/// Toggle horizontal flip on a tile value
pub fn toggle_flip_x(tile: u32) -> (r: u32)
    ensures
        r == tile ^ TILE_FLIP_X,
        r == spec_toggle_flip_x(tile),
{
    assert(tile ^ 0x8000_0000u32 == (if tile >= 0x8000_0000u32 {
        (tile - 0x8000_0000u32) as u32
    } else {
        (tile + 0x8000_0000u32) as u32
    })) by (bit_vector);
    tile ^ TILE_FLIP_X
}

/// Toggle vertical flip on a tile value
pub fn toggle_flip_y(tile: u32) -> (r: u32)
    ensures
        r == tile ^ TILE_FLIP_Y,
        r == spec_toggle_flip_y(tile),
{
    assert(tile ^ 0x4000_0000u32 == (if (tile / 0x4000_0000u32) % 2 == 1 {
        (tile - 0x4000_0000u32) as u32
    } else {
        (tile + 0x4000_0000u32) as u32
    })) by (bit_vector);
    tile ^ TILE_FLIP_Y
}

/// A tile built with flip flags keeps its index, and reading the flags back
/// gives the flags it was built with.
pub proof fn law_tile_with_flips_roundtrip(index: u32, flip_x: bool, flip_y: bool)
    ensures
        ({
            let t = spec_tile_with_flips(index, flip_x, flip_y) as u32;
            &&& 0 <= spec_tile_with_flips(index, flip_x, flip_y) <= u32::MAX
            &&& spec_tile_index(t) == spec_tile_index(index)
            &&& has_flip_x(t) == flip_x
            &&& has_flip_y(t) == flip_y
        }),
{
}

/// Toggling a flip flag twice gives back the original tile value, and toggling
/// a flag leaves the tile index untouched.
pub proof fn law_toggle_flip_involutive(tile: u32)
    ensures
        0 <= spec_toggle_flip_x(tile) <= u32::MAX,
        0 <= spec_toggle_flip_y(tile) <= u32::MAX,
        spec_toggle_flip_x(spec_toggle_flip_x(tile) as u32) == tile,
        spec_toggle_flip_y(spec_toggle_flip_y(tile) as u32) == tile,
        spec_tile_index(spec_toggle_flip_x(tile) as u32) == spec_tile_index(tile),
        spec_tile_index(spec_toggle_flip_y(tile) as u32) == spec_tile_index(tile),
        has_flip_y(spec_toggle_flip_x(tile) as u32) == has_flip_y(tile),
        has_flip_x(spec_toggle_flip_y(tile) as u32) == has_flip_x(tile),
{
}

} // verus!
