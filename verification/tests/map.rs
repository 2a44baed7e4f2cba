use std::collections::BTreeMap;
use std::iter::repeat;

use hafen_bot::coords::{grid_pos_to_tile_pos, GRID_SIZE};
use hafen_bot::grid::{Grid, GridNeighbour, Tile};
use hafen_bot::map::WorldMap;
use hafen_bot::map_db::MapDb;
use hafen_bot::vec2::Vec2i;

#[derive(Default)]
struct FakeMapDb {
    grids_by_id: BTreeMap<i64, Grid>,
    grids_by_segment_id_and_position: BTreeMap<(i64, Vec2i), Grid>,
}

impl MapDb for FakeMapDb {
    fn get_tiles(&self) -> Vec<Tile> {
        Vec::new()
    }

    fn get_tile_id_by_name(&self, _name: &String) -> Option<i32> {
        None
    }

    fn set_tile(&mut self, _tile: &Tile) {}

    fn get_grids(&self) -> Vec<Grid> {
        Vec::new()
    }

    fn get_grid_ids_by_segment_id(&self, _segment_id: i64) -> Vec<i64> {
        Vec::new()
    }

    fn get_grid_by_id(&self, grid_id: i64) -> Option<Grid> {
        self.grids_by_id.get(&grid_id).cloned()
    }

    fn get_grid(&self, segment_id: i64, position: Vec2i) -> Option<Grid> {
        self.grids_by_segment_id_and_position.get(&(segment_id, position)).cloned()
    }

    fn add_grid(&mut self, _grid_id: i64, _heights: &Vec<u32>, _tiles: &Vec<i32>, _neighbours: &Vec<GridNeighbour>) {}

    fn update_grid(&mut self, _grid_id: i64, _heights: &Vec<u32>, _tiles: &Vec<i32>) {}
}

fn heights(value: f32) -> Vec<u32> {
    repeat(value.to_bits()).take((GRID_SIZE * GRID_SIZE) as usize).collect()
}

fn tiles(value: i32) -> Vec<i32> {
    repeat(value).take((GRID_SIZE * GRID_SIZE) as usize).collect()
}

fn full_grid() -> Grid {
    Grid {
        id: 1,
        revision: 1,
        segment_id: 1,
        position: Vec2i::new(42, 13),
        heights: heights(1.0),
        tiles: tiles(1),
    }
}

fn empty_grid(id: i64, position: Vec2i) -> Grid {
    Grid {
        id,
        revision: 1,
        segment_id: id,
        position,
        heights: Vec::new(),
        tiles: Vec::new(),
    }
}

#[test]
fn added_tile_should_be_accessible() {
    let mut map = WorldMap::new(FakeMapDb::default());
    let grid = full_grid();
    map.add_grid(grid.clone(), Vec::new());
    assert_eq!(map.get_grid_by_id(1), Some(&grid));
    assert_eq!(map.get_grid(1, Vec2i::new(42, 13)), Some(&grid));
    assert_eq!(map.get_tile(1, grid_pos_to_tile_pos(Vec2i::new(42, 13))), Some(1));
}

#[test]
fn map_adjacent_grids_should_be_stored_in_a_single_segment() {
    let mut map = WorldMap::new(FakeMapDb::default());
    let grid1 = empty_grid(1, Vec2i::zero());
    let grid2 = empty_grid(2, Vec2i::new(1, 0));
    map.add_grid(grid1, Vec::new());
    map.add_grid(grid2, vec![GridNeighbour { id: 1, offset: Vec2i::new(-1, 0) }]);
    assert_eq!(map.get_grid(1, Vec2i::zero()).map(|v| (v.id, v.segment_id)), Some((1, 1)));
    assert_eq!(map.get_grid(1, Vec2i::new(1, 0)).map(|v| (v.id, v.segment_id)), Some((2, 1)));
}

#[test]
fn map_separate_grids_should_be_stored_in_different_segments() {
    let mut map = WorldMap::new(FakeMapDb::default());
    let grid1 = empty_grid(1, Vec2i::zero());
    let grid2 = empty_grid(2, Vec2i::zero());
    map.add_grid(grid1, Vec::new());
    map.add_grid(grid2, Vec::new());
    assert_eq!(map.get_grid(1, Vec2i::zero()).map(|v| (v.id, v.segment_id)), Some((1, 1)));
    assert_eq!(map.get_grid(2, Vec2i::zero()).map(|v| (v.id, v.segment_id)), Some((2, 2)));
}

#[test]
fn map_adjacent_grid_to_separated_segments_should_merge_them() {
    let mut map = WorldMap::new(FakeMapDb::default());
    let grid1 = empty_grid(1, Vec2i::zero());
    let grid2 = empty_grid(2, Vec2i::zero());
    let adjacent_grid = empty_grid(3, Vec2i::zero());
    map.add_grid(grid1, Vec::new());
    map.add_grid(grid2, Vec::new());
    map.add_grid(adjacent_grid, vec![
        GridNeighbour { id: 1, offset: Vec2i::new(-1, -1) },
        GridNeighbour { id: 2, offset: Vec2i::new(1, 0) },
    ]);
    assert_eq!(map.get_grid_by_id(1).map(|v| (v.id, v.segment_id, v.position)), Some((1, 1, Vec2i::new(0, 0))));
    assert_eq!(map.get_grid_by_id(2).map(|v| (v.id, v.segment_id, v.position)), Some((2, 1, Vec2i::new(2, 1))));
    assert_eq!(map.get_grid_by_id(3).map(|v| (v.id, v.segment_id, v.position)), Some((3, 1, Vec2i::new(1, 1))));
}

#[test]
fn get_grid_should_return_none_for_absent_grid() {
    let mut map = WorldMap::new(FakeMapDb::default());
    let grid = full_grid();
    map.add_grid(grid.clone(), Vec::new());
    assert_eq!(map.get_grid(1, Vec2i::zero()), None);
}

#[test]
fn get_grid_should_return_none_for_absent_segment() {
    let mut map = WorldMap::new(FakeMapDb::default());
    let grid = full_grid();
    map.add_grid(grid.clone(), Vec::new());
    assert_eq!(map.get_grid(2, Vec2i::new(42, 13)), None);
}

#[test]
fn get_tile_should_return_none_for_absent_grid() {
    let mut map = WorldMap::new(FakeMapDb::default());
    let grid = full_grid();
    map.add_grid(grid.clone(), Vec::new());
    assert_eq!(map.get_tile(1, Vec2i::zero()), None);
}

#[test]
fn get_tile_should_return_none_for_absent_segment() {
    let mut map = WorldMap::new(FakeMapDb::default());
    let grid = full_grid();
    map.add_grid(grid.clone(), Vec::new());
    assert_eq!(map.get_tile(2, grid_pos_to_tile_pos(Vec2i::new(42, 13))), None);
}

#[test]
fn update_grid_should_change_grid_position() {
    let mut map = WorldMap::new(FakeMapDb::default());
    let mut grid = full_grid();
    map.add_grid(grid.clone(), Vec::new());
    grid.position = Vec2i::new(13, 42);
    map.update_grid(grid.clone());
    assert_eq!(map.get_grid_by_id(1), Some(&grid));
    assert_eq!(map.get_grid(1, Vec2i::new(13, 42)), Some(&grid));
    assert_eq!(map.get_tile(1, grid_pos_to_tile_pos(Vec2i::new(13, 42))), Some(1));
}

#[test]
fn get_tile_should_prefer_local_grid() {
    let grid = Grid {
        id: 1,
        revision: 1,
        segment_id: 1,
        position: Vec2i::new(42, 13),
        heights: Vec::new(),
        tiles: tiles(146),
    };
    let mut db_grid = grid.clone();
    db_grid.tiles = tiles(3);
    let mut map_db = FakeMapDb::default();
    map_db.grids_by_id.insert(1, db_grid.clone());
    map_db.grids_by_segment_id_and_position.insert((grid.segment_id, grid.position), db_grid);
    let mut map = WorldMap::new(map_db);
    map.add_grid(grid.clone(), Vec::new());
    let tile_pos = grid_pos_to_tile_pos(Vec2i::new(42, 13));
    assert_eq!(map.get_tile(1, tile_pos), Some(146));
}

#[test]
fn get_tile_should_look_into_db() {
    let base_grid = Grid {
        id: 1,
        revision: 1,
        segment_id: 1,
        position: Vec2i::new(42, 13),
        heights: Vec::new(),
        tiles: tiles(146),
    };
    let other_grid = Grid {
        id: 2,
        revision: 1,
        segment_id: 1,
        position: Vec2i::new(43, 13),
        heights: Vec::new(),
        tiles: tiles(147),
    };
    let mut map_db = FakeMapDb::default();
    map_db.grids_by_id.insert(1, base_grid.clone());
    map_db.grids_by_segment_id_and_position.insert((base_grid.segment_id, base_grid.position), base_grid.clone());
    map_db.grids_by_id.insert(2, other_grid.clone());
    map_db.grids_by_segment_id_and_position.insert((other_grid.segment_id, other_grid.position), other_grid.clone());
    let mut map = WorldMap::new(map_db);
    map.add_grid(base_grid, Vec::new());
    let tile_pos = grid_pos_to_tile_pos(Vec2i::new(43, 13));
    assert_eq!(map.get_tile(1, tile_pos), Some(147));
}

#[test]
fn get_tile_should_adjust_db_grid_position() {
    let base_grid = Grid {
        id: 1,
        revision: 1,
        segment_id: 1,
        position: Vec2i::new(42, 13),
        heights: Vec::new(),
        tiles: tiles(146),
    };
    let other_grid = Grid {
        id: 2,
        revision: 1,
        segment_id: 1,
        position: Vec2i::new(43, 13),
        heights: Vec::new(),
        tiles: tiles(147),
    };
    let shift = Vec2i::new(10, 5);
    let mut db_base_grid = base_grid.clone();
    db_base_grid.position = db_base_grid.position - shift;
    let mut db_other_grid = other_grid.clone();
    db_other_grid.position = db_other_grid.position - shift;
    let mut map_db = FakeMapDb::default();
    map_db.grids_by_id.insert(1, db_base_grid.clone());
    map_db.grids_by_segment_id_and_position.insert((db_base_grid.segment_id, db_base_grid.position), db_base_grid.clone());
    map_db.grids_by_id.insert(2, db_other_grid.clone());
    map_db.grids_by_segment_id_and_position.insert((db_other_grid.segment_id, db_other_grid.position), db_other_grid.clone());
    let mut map = WorldMap::new(map_db);
    map.add_grid(base_grid, Vec::new());
    let tile_pos = grid_pos_to_tile_pos(Vec2i::new(43, 13));
    assert_eq!(map.get_tile(1, tile_pos), Some(147));
}

#[test]
fn get_tile_should_not_deadlock_when_db_returns_same_grid() {
    let grid = Grid {
        id: 1,
        revision: 1,
        segment_id: 1,
        position: Vec2i::new(42, 13),
        heights: Vec::new(),
        tiles: tiles(146),
    };
    let shift = Vec2i::new(10, 5);
    let mut db_base_grid = grid.clone();
    db_base_grid.position = db_base_grid.position - shift;
    let mut map_db = FakeMapDb::default();
    map_db.grids_by_id.insert(1, db_base_grid.clone());
    map_db.grids_by_segment_id_and_position.insert((db_base_grid.segment_id, db_base_grid.position), db_base_grid.clone());
    let mut map = WorldMap::new(map_db);
    map.add_grid(grid.clone(), Vec::new());
    map.db.grids_by_segment_id_and_position.remove(&(db_base_grid.segment_id, db_base_grid.position));
    db_base_grid.position = Vec2i::zero();
    map.db.grids_by_id.insert(1, db_base_grid.clone());
    map.db.grids_by_segment_id_and_position.insert((db_base_grid.segment_id, Vec2i::zero()), db_base_grid.clone());
    map.db.grids_by_segment_id_and_position.insert((db_base_grid.segment_id, Vec2i::new(-42, -13)), db_base_grid.clone());
    let tile_pos = grid_pos_to_tile_pos(Vec2i::zero());
    assert_eq!(map.get_tile(1, tile_pos), Some(146));
}
