//! Conversions between map-click, tile, grid and in-grid coordinates.
//!
//! A grid is a square of `GRID_SIZE` by `GRID_SIZE` tiles; a tile is
//! `MAP_UNITS_PER_TILE` map-click units wide.

use vstd::prelude::*;
use crate::math::lemma_floor_div_is_floor;
use crate::vec2::{fits_i32, Vec2i};

verus! {

/// Tiles along one side of a grid.
pub const GRID_SIZE: i32 = 100;

/// Tiles in one grid.
pub const GRID_TILES: usize = 10000;

/// Map-click units along one side of a tile.
pub const MAP_UNITS_PER_TILE: i32 = 1024;

/// The tile that holds a map-click position.
pub open spec fn map_pos_to_tile_pos_spec(map_pos: Vec2i) -> Vec2i {
    Vec2i {
        x: ((map_pos.x as int) / 1024) as i32,
        y: ((map_pos.y as int) / 1024) as i32,
    }
}

/// The tile that holds the map-click position `map_pos`.
pub fn map_pos_to_tile_pos(map_pos: Vec2i) -> (result: Vec2i)
    ensures
        result == map_pos_to_tile_pos_spec(map_pos),
        result.x * 1024 <= map_pos.x < (result.x + 1) * 1024,
        result.y * 1024 <= map_pos.y < (result.y + 1) * 1024,
{
    proof {
        lemma_floor_div_is_floor(map_pos.x as int, 1024);
        lemma_floor_div_is_floor(map_pos.y as int, 1024);
    }
    map_pos.floor_div_i32(MAP_UNITS_PER_TILE)
}

/// The map-click position of the middle of a tile, kept inside `i32`.
pub open spec fn tile_pos_to_map_pos_spec(tile_pos: Vec2i) -> Vec2i {
    Vec2i {
        x: crate::math::clamp_spec(tile_pos.x * 1024 + 512, i32::MIN as int, i32::MAX as int) as i32,
        y: crate::math::clamp_spec(tile_pos.y * 1024 + 512, i32::MIN as int, i32::MAX as int) as i32,
    }
}

fn tile_coord_to_map_coord(tile: i32) -> (result: i32)
    ensures
        result == crate::math::clamp_spec(tile * 1024 + 512, i32::MIN as int, i32::MAX as int),
{
    let wide: i64 = (tile as i64) * 1024 + 512;
    if wide < i32::MIN as i64 {
        i32::MIN
    } else if wide > i32::MAX as i64 {
        i32::MAX
    } else {
        wide as i32
    }
}

/// The map-click position of the middle of the tile `tile_pos`; a coordinate
/// that does not fit is held at the nearest end of `i32`.
pub fn tile_pos_to_map_pos(tile_pos: Vec2i) -> (result: Vec2i)
    ensures
        result == tile_pos_to_map_pos_spec(tile_pos),
{
    Vec2i { x: tile_coord_to_map_coord(tile_pos.x), y: tile_coord_to_map_coord(tile_pos.y) }
}

/// A click in the middle of a tile lands in that tile.
pub proof fn lemma_tile_center_click_round_trip(tile_pos: Vec2i)
    requires
        fits_i32(tile_pos.x * 1024 + 512),
        fits_i32(tile_pos.y * 1024 + 512),
    ensures
        map_pos_to_tile_pos_spec(tile_pos_to_map_pos_spec(tile_pos)) == tile_pos,
{
    let m = tile_pos_to_map_pos_spec(tile_pos);
    assert((tile_pos.x * 1024 + 512) / 1024 == tile_pos.x) by {
        vstd::arithmetic::div_mod::lemma_fundamental_div_mod_converse(
            tile_pos.x * 1024 + 512, 1024, tile_pos.x as int, 512);
    }
    assert((tile_pos.y * 1024 + 512) / 1024 == tile_pos.y) by {
        vstd::arithmetic::div_mod::lemma_fundamental_div_mod_converse(
            tile_pos.y * 1024 + 512, 1024, tile_pos.y as int, 512);
    }
}

/// The first tile of a grid.
pub open spec fn grid_pos_to_tile_pos_spec(grid_pos: Vec2i) -> Vec2i {
    Vec2i { x: (grid_pos.x * 100) as i32, y: (grid_pos.y * 100) as i32 }
}

/// The tile position of the first tile of the grid at `grid_pos`.
pub fn grid_pos_to_tile_pos(grid_pos: Vec2i) -> (result: Vec2i)
    requires
        fits_i32(grid_pos.x * 100),
        fits_i32(grid_pos.y * 100),
    ensures
        result == grid_pos_to_tile_pos_spec(grid_pos),
        result.x == grid_pos.x * 100,
        result.y == grid_pos.y * 100,
{
    Vec2i { x: grid_pos.x * GRID_SIZE, y: grid_pos.y * GRID_SIZE }
}

/// The grid that holds a tile.
pub open spec fn tile_pos_to_grid_pos_spec(tile_pos: Vec2i) -> Vec2i {
    Vec2i { x: ((tile_pos.x as int) / 100) as i32, y: ((tile_pos.y as int) / 100) as i32 }
}

/// The grid position of the grid that holds the tile at `tile_pos`.
pub fn tile_pos_to_grid_pos(tile_pos: Vec2i) -> (result: Vec2i)
    ensures
        result == tile_pos_to_grid_pos_spec(tile_pos),
        result.x * 100 <= tile_pos.x < (result.x + 1) * 100,
        result.y * 100 <= tile_pos.y < (result.y + 1) * 100,
{
    proof {
        lemma_floor_div_is_floor(tile_pos.x as int, 100);
        lemma_floor_div_is_floor(tile_pos.y as int, 100);
    }
    tile_pos.floor_div_i32(GRID_SIZE)
}

/// A tile's position counted from the first tile of the grid at `grid_pos`.
pub open spec fn relative_tile_pos_spec(tile_pos: Vec2i, grid_pos: Vec2i) -> Vec2i {
    Vec2i { x: (tile_pos.x - grid_pos.x * 100) as i32, y: (tile_pos.y - grid_pos.y * 100) as i32 }
}

/// The position of the tile at `tile_pos` inside the grid at `grid_pos`.
pub fn tile_pos_to_relative_tile_pos(tile_pos: Vec2i, grid_pos: Vec2i) -> (result: Vec2i)
    requires
        fits_i32(tile_pos.x - grid_pos.x * 100),
        fits_i32(tile_pos.y - grid_pos.y * 100),
    ensures
        result == relative_tile_pos_spec(tile_pos, grid_pos),
        result.x == tile_pos.x - grid_pos.x * 100,
        result.y == tile_pos.y - grid_pos.y * 100,
{
    let x: i64 = tile_pos.x as i64 - (grid_pos.x as i64) * 100;
    let y: i64 = tile_pos.y as i64 - (grid_pos.y as i64) * 100;
    Vec2i { x: x as i32, y: y as i32 }
}

/// Whether `tile_pos` names a cell of a grid.
pub open spec fn in_grid(tile_pos: Vec2i) -> bool {
    0 <= tile_pos.x < 100 && 0 <= tile_pos.y < 100
}

/// Row-major index of a cell.
pub open spec fn tile_index_spec(tile_pos: Vec2i) -> int {
    tile_pos.x + tile_pos.y * 100
}

/// The index of the cell `tile_pos` in a grid's row-major tile list.
pub fn tile_pos_to_tile_index(tile_pos: Vec2i) -> (result: usize)
    requires
        0 <= tile_pos.x,
        0 <= tile_pos.y,
        tile_index_spec(tile_pos) <= usize::MAX,
    ensures
        result == tile_index_spec(tile_pos),
        in_grid(tile_pos) ==> result < GRID_TILES,
{
    let wide: u64 = tile_pos.x as u64 + (tile_pos.y as u64) * 100;
    wide as usize
}

/// The cell at a row-major index.
pub open spec fn tile_index_to_tile_pos_spec(index: int) -> Vec2i {
    Vec2i { x: (index % 100) as i32, y: (index / 100) as i32 }
}

/// The cell whose row-major index is `index`.
pub fn tile_index_to_tile_pos(index: usize) -> (result: Vec2i)
    requires
        index / 100 <= i32::MAX,
    ensures
        result == tile_index_to_tile_pos_spec(index as int),
        result.x == index % 100,
        result.y == index / 100,
{
    Vec2i { x: (index % 100) as i32, y: (index / 100) as i32 }
}

/// Index and cell determine each other inside a grid.
pub proof fn lemma_tile_index_round_trip(tile_pos: Vec2i)
    requires
        in_grid(tile_pos),
    ensures
        0 <= tile_index_spec(tile_pos) < 10000,
        tile_index_to_tile_pos_spec(tile_index_spec(tile_pos)) == tile_pos,
{
    let index = tile_index_spec(tile_pos);
    vstd::arithmetic::div_mod::lemma_fundamental_div_mod_converse(
        index, 100, tile_pos.y as int, tile_pos.x as int);
}

/// The cell of an index below `GRID_TILES` lies in the grid and has that index.
pub proof fn lemma_tile_pos_round_trip(index: int)
    requires
        0 <= index < 10000,
    ensures
        in_grid(tile_index_to_tile_pos_spec(index)),
        tile_index_spec(tile_index_to_tile_pos_spec(index)) == index,
{
    vstd::arithmetic::div_mod::lemma_fundamental_div_mod(index, 100);
    vstd::arithmetic::div_mod::lemma_mod_bound(index, 100);
    vstd::arithmetic::div_mod::lemma_div_pos_is_pos(index, 100);
    assert(index / 100 < 100) by {
        vstd::arithmetic::div_mod::lemma_div_is_ordered(index, 9999, 100);
        assert(9999int / 100 == 99);
    }
}

/// The tile at `relative_tile_pos` inside the grid at `grid_pos`.
pub open spec fn make_tile_pos_spec(grid_pos: Vec2i, relative_tile_pos: Vec2i) -> Vec2i {
    Vec2i {
        x: (grid_pos.x * 100 + relative_tile_pos.x) as i32,
        y: (grid_pos.y * 100 + relative_tile_pos.y) as i32,
    }
}

/// The tile position of the cell `relative_tile_pos` of the grid at `grid_pos`.
pub fn make_tile_pos(grid_pos: Vec2i, relative_tile_pos: Vec2i) -> (result: Vec2i)
    requires
        fits_i32(grid_pos.x * 100 + relative_tile_pos.x),
        fits_i32(grid_pos.y * 100 + relative_tile_pos.y),
    ensures
        result == make_tile_pos_spec(grid_pos, relative_tile_pos),
        result.x == grid_pos.x * 100 + relative_tile_pos.x,
        result.y == grid_pos.y * 100 + relative_tile_pos.y,
{
    let x: i64 = (grid_pos.x as i64) * 100 + relative_tile_pos.x as i64;
    let y: i64 = (grid_pos.y as i64) * 100 + relative_tile_pos.y as i64;
    Vec2i { x: x as i32, y: y as i32 }
}

/// A tile built from a grid position and a cell lies in that grid, at that cell.
pub proof fn lemma_make_tile_pos_round_trip(grid_pos: Vec2i, relative_tile_pos: Vec2i)
    requires
        in_grid(relative_tile_pos),
        fits_i32(grid_pos.x * 100 + relative_tile_pos.x),
        fits_i32(grid_pos.y * 100 + relative_tile_pos.y),
    ensures
        tile_pos_to_grid_pos_spec(make_tile_pos_spec(grid_pos, relative_tile_pos)) == grid_pos,
        relative_tile_pos_spec(make_tile_pos_spec(grid_pos, relative_tile_pos), grid_pos)
            == relative_tile_pos,
{
    vstd::arithmetic::div_mod::lemma_fundamental_div_mod_converse(
        grid_pos.x * 100 + relative_tile_pos.x, 100, grid_pos.x as int, relative_tile_pos.x as int);
    vstd::arithmetic::div_mod::lemma_fundamental_div_mod_converse(
        grid_pos.y * 100 + relative_tile_pos.y, 100, grid_pos.y as int, relative_tile_pos.y as int);
}

} // verus!
