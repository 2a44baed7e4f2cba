//! The store of tiles and grids that outlives a session and is shared
//! between sessions.

use vstd::prelude::*;
use crate::grid::{Grid, GridNeighbour, Tile};
use crate::vec2::Vec2i;

verus! {

/// What the map asks of a store of tiles and grids.
///
/// A store is shared and may change between two calls, so no method
/// promises anything of what it returns.
pub trait MapDb {
    /// Every tile of the store.
    fn get_tiles(&self) -> Vec<Tile>;

    /// The id of the tile named `name`.
    fn get_tile_id_by_name(&self, name: &String) -> Option<i32>;

    /// Stores `tile` unless the store holds a version at least as new.
    fn set_tile(&mut self, tile: &Tile);

    /// Every grid of the store.
    fn get_grids(&self) -> Vec<Grid>;

    /// The ids of the grids of a segment.
    fn get_grid_ids_by_segment_id(&self, segment_id: i64) -> Vec<i64>;

    /// The grid with the id `grid_id`.
    fn get_grid_by_id(&self, grid_id: i64) -> Option<Grid>;

    /// The grid at `position` in the segment `segment_id`.
    fn get_grid(&self, segment_id: i64, position: Vec2i) -> Option<Grid>;

    /// Adds a grid, placed by its neighbours.
    fn add_grid(
        &mut self,
        grid_id: i64,
        heights: &Vec<u32>,
        tiles: &Vec<i32>,
        neighbours: &Vec<GridNeighbour>,
    );

    /// Replaces the heights and tiles of a grid.
    fn update_grid(&mut self, grid_id: i64, heights: &Vec<u32>, tiles: &Vec<i32>);
}

/// A store that holds nothing and keeps nothing.
pub struct NoMapDb {}

impl MapDb for NoMapDb {
    fn get_tiles(&self) -> (result: Vec<Tile>)
        ensures
            result@ == Seq::<Tile>::empty(),
    {
        Vec::new()
    }

    fn get_tile_id_by_name(&self, name: &String) -> (result: Option<i32>)
        ensures
            result.is_none(),
    {
        None
    }

    fn set_tile(&mut self, tile: &Tile) {
    }

    fn get_grids(&self) -> (result: Vec<Grid>)
        ensures
            result@ == Seq::<Grid>::empty(),
    {
        Vec::new()
    }

    fn get_grid_ids_by_segment_id(&self, segment_id: i64) -> (result: Vec<i64>)
        ensures
            result@ == Seq::<i64>::empty(),
    {
        Vec::new()
    }

    fn get_grid_by_id(&self, grid_id: i64) -> (result: Option<Grid>)
        ensures
            result.is_none(),
    {
        None
    }

    fn get_grid(&self, segment_id: i64, position: Vec2i) -> (result: Option<Grid>)
        ensures
            result.is_none(),
    {
        None
    }

    fn add_grid(
        &mut self,
        grid_id: i64,
        heights: &Vec<u32>,
        tiles: &Vec<i32>,
        neighbours: &Vec<GridNeighbour>,
    ) {
    }

    fn update_grid(&mut self, grid_id: i64, heights: &Vec<u32>, tiles: &Vec<i32>) {
    }
}

} // verus!
