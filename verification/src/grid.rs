//! Tiles and grids, the units the map is built from.

use vstd::prelude::*;
use crate::coords::{tile_index_spec, tile_pos_to_tile_index};
use crate::vec2::Vec2i;

verus! {

/// A kind of terrain. `name` identifies the kind; a greater `version`
/// supersedes a smaller one.
#[derive(Debug, Clone, PartialEq, Eq, PartialOrd, Ord)]
pub struct Tile {
    pub id: i32,
    pub version: i32,
    pub name: String,
    pub color: i32,
}

/// The mathematical value of a `Tile`.
pub struct TileData {
    pub id: i32,
    pub version: i32,
    pub name: Seq<char>,
    pub color: i32,
}

impl View for Tile {
    type V = TileData;

    open spec fn view(&self) -> TileData {
        TileData { id: self.id, version: self.version, name: self.name@, color: self.color }
    }
}

impl Tile {
    /// A tile equal to this one.
    pub fn duplicate(&self) -> (result: Tile)
        ensures
            result@ == self@,
    {
        Tile { id: self.id, version: self.version, name: self.name.clone(), color: self.color }
    }
}

/// A square of `GRID_SIZE` by `GRID_SIZE` tiles, placed at `position` (in
/// grid units) inside the segment `segment_id`.
///
/// `heights` holds one single-precision height per cell as its IEEE-754 bit
/// pattern; `tiles` holds one tile id per cell. Both are row-major.
#[derive(Debug, Clone, PartialEq)]
pub struct Grid {
    pub id: i64,
    pub revision: i64,
    pub segment_id: i64,
    pub position: Vec2i,
    pub heights: Vec<u32>,
    pub tiles: Vec<i32>,
}

/// The mathematical value of a `Grid`.
pub struct GridData {
    pub id: i64,
    pub revision: i64,
    pub segment_id: i64,
    pub position: Vec2i,
    pub heights: Seq<u32>,
    pub tiles: Seq<i32>,
}

impl View for Grid {
    type V = GridData;

    open spec fn view(&self) -> GridData {
        GridData {
            id: self.id,
            revision: self.revision,
            segment_id: self.segment_id,
            position: self.position,
            heights: self.heights@,
            tiles: self.tiles@,
        }
    }
}

impl Grid {
    /// The tile id of the cell `tile_pos`.
    pub fn get_tile(&self, tile_pos: Vec2i) -> (result: i32)
        requires
            0 <= tile_pos.x,
            0 <= tile_pos.y,
            tile_index_spec(tile_pos) < self.tiles.len(),
        ensures
            result == self.tiles[tile_index_spec(tile_pos)],
    {
        self.tiles[tile_pos_to_tile_index(tile_pos)]
    }

    /// The bit pattern of the height of the cell `tile_pos`.
    pub fn get_height(&self, tile_pos: Vec2i) -> (result: u32)
        requires
            0 <= tile_pos.x,
            0 <= tile_pos.y,
            tile_index_spec(tile_pos) < self.heights.len(),
        ensures
            result == self.heights[tile_index_spec(tile_pos)],
    {
        self.heights[tile_pos_to_tile_index(tile_pos)]
    }

    /// A grid equal to this one.
    pub fn duplicate(&self) -> (result: Grid)
        ensures
            result@ == self@,
    {
        Grid {
            id: self.id,
            revision: self.revision,
            segment_id: self.segment_id,
            position: self.position,
            heights: self.heights.clone(),
            tiles: self.tiles.clone(),
        }
    }
}

/// A hint that the grid `id` lies at `offset` (in grid units) from a grid
/// that is being added.
#[derive(Debug, Clone, Copy, PartialEq, Eq, Structural, PartialOrd, Ord)]
pub struct GridNeighbour {
    pub id: i64,
    pub offset: Vec2i,
}

/// A set of tile ids.
pub trait TileSet {
    /// Whether the tile id belongs to the set.
    spec fn has(&self, tile: i32) -> bool;

    /// Whether `tile` belongs to the set.
    fn contains(&self, tile: i32) -> (result: bool)
        ensures
            result == self.has(tile),
    ;
}

} // verus!
