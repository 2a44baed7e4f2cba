//! The arithmetic on fractions that tasks need and leave to their caller:
//! distances between points, straight lines across tiles, and costs.

use vstd::prelude::*;
use crate::grid::TileSet;
use crate::ordered_map::OrderedMap;
use crate::path::{LineStart, LineWalker, TileWeights};
use crate::protocol::WorldPos;
use crate::vec2::Vec2i;

verus! {

/// A tile id and what the tile costs, a double as its bit pattern.
#[derive(Debug, Clone, Copy, PartialEq, Eq, Structural)]
pub struct TileIdCost {
    pub id: i32,
    pub cost: u64,
}

/// Whether the tile id is listed among the costs.
pub open spec fn listed(costs: Seq<TileIdCost>, tile: i32) -> bool {
    exists|i: int| 0 <= i < costs.len() && (#[trigger] costs[i]).id == tile
}

/// Distances, lines and costs.
///
/// Of the distances only this is asked: the same question gets the same
/// answer. A task sends what it decides by the answers it gets, whatever
/// they are.
pub trait Geometry: LineWalker {
    /// The weights that a list of costs stands for.
    type Weights: TileWeights;

    /// The weights under which exactly the tiles listed can be walked.
    fn weights(&self, costs: &Vec<TileIdCost>) -> (result: Self::Weights)
        ensures
            forall|tile: i32| result.has(tile) == listed(costs@, tile),
    ;

    /// Whether the tile at `tile_pos` lies farther from the point `from`
    /// than a click reaches; the tile is taken by its middle where
    /// `middle` is set, else by its first corner.
    spec fn far(&self, tile_pos: Vec2i, middle: bool, from: WorldPos) -> bool;

    /// Whether the map position `map_pos` lies farther than `limit`, a
    /// double as its bit pattern, from the point `from`.
    spec fn map_far(&self, map_pos: Vec2i, from: WorldPos, limit: u64) -> bool;

    /// The rank of the tile at `tile_pos` by its distance from the point
    /// `from`: the farther, the greater.
    spec fn rank(&self, tile_pos: Vec2i, from: WorldPos) -> i32;

    /// Computes `far`.
    fn tile_is_far(&self, tile_pos: Vec2i, middle: bool, from: WorldPos) -> (result: bool)
        ensures
            result == self.far(tile_pos, middle, from),
    ;

    /// Computes `map_far`.
    fn map_pos_is_far(&self, map_pos: Vec2i, from: WorldPos, limit: u64) -> (result: bool)
        ensures
            result == self.map_far(map_pos, from, limit),
    ;

    /// Computes `rank`.
    fn distance_score(&self, tile_pos: Vec2i, from: WorldPos) -> (result: i32)
        ensures
            result == self.rank(tile_pos, from),
    ;
}

/// The cost of a way of the cost `so_far` that goes on by one step: two
/// more for a straight step, three for a diagonal one, held at the greatest
/// cost.
pub open spec fn step_cost(so_far: u64, diagonal: bool) -> u64 {
    let step: int = if diagonal {
        3
    } else {
        2
    };
    if so_far + step <= u64::MAX {
        (so_far + step) as u64
    } else {
        u64::MAX
    }
}

/// The rank of a tile: the cost of the way to it and twice the tiles it
/// lies from the goal, held at the greatest rank.
pub open spec fn step_score(cost: u64, tile: Vec2i, goal: Vec2i) -> i32 {
    if cost + 2 * apart(tile, goal) > i32::MAX {
        i32::MAX
    } else {
        (cost + 2 * apart(tile, goal)) as i32
    }
}

/// The weights under which every listed tile costs the same: a straight
/// step counts two, a diagonal step three.
pub struct StepWeights {
    pub tiles: OrderedMap<bool>,
}

impl StepWeights {
    /// Whether the set of tiles is in order.
    pub open spec fn wf(&self) -> bool {
        self.tiles.wf()
    }
}

impl TileSet for StepWeights {
    open spec fn has(&self, tile: i32) -> bool {
        self.tiles.wf() && self.tiles@.contains_key(tile as i128)
    }

    fn contains(&self, tile: i32) -> (result: bool) {
        if !is_in_order(&self.tiles) {
            return false;
        }
        self.tiles.contains_key(tile as i128)
    }
}

/// Whether the keys of the map strictly increase and each has its value.
pub fn is_in_order(map: &OrderedMap<bool>) -> (result: bool)
    ensures
        result == map.wf(),
{
    if map.keys.len() != map.values.len() {
        return false;
    }
    let mut i: usize = 1;
    while i < map.keys.len()
        invariant
            1 <= i,
            map.keys.len() == map.values.len(),
            i <= map.keys.len() || map.keys.len() == 0,
            forall|a: int, b: int| 0 <= a < b < i && b < map.keys.len() ==> map.keys[a] < map.keys[b],
        decreases map.keys.len() - i,
    {
        if map.keys[i - 1] >= map.keys[i] {
            return false;
        }
        proof {
            assert forall|a: int, b: int| 0 <= a < b < i + 1 implies map.keys[a] < map.keys[b] by {
                if b == i && a < i - 1 {
                    assert(map.keys[a] < map.keys[i - 1]);
                }
            }
        }
        i += 1;
    }
    true
}

impl TileWeights for StepWeights {
    type Cost = u64;

    open spec fn cost_of(&self, tile: i32) -> Option<u64> {
        if self.has(tile) {
            Some(1u64)
        } else {
            None
        }
    }

    open spec fn no_cost(&self) -> u64 {
        0
    }

    open spec fn cost_with(&self, so_far: u64, diagonal: bool, from: u64, to: u64) -> u64 {
        step_cost(so_far, diagonal)
    }

    open spec fn prefers(&self, new: u64, known: Option<u64>) -> bool {
        match known {
            Some(known) => new < known,
            None => true,
        }
    }

    open spec fn rank_of(&self, cost: u64, tile: Vec2i, goal: Vec2i) -> i32 {
        step_score(cost, tile, goal)
    }

    fn get(&self, tile: i32) -> (result: Option<u64>) {
        if self.contains(tile) {
            Some(1)
        } else {
            None
        }
    }

    fn start(&self) -> (result: u64) {
        0
    }

    fn extend(&self, so_far: u64, diagonal: bool, from: u64, to: u64) -> (result: u64) {
        let step: u64 = if diagonal { 3 } else { 2 };
        if so_far <= u64::MAX - step {
            so_far + step
        } else {
            u64::MAX
        }
    }

    fn improves(&self, new: u64, known: Option<u64>) -> (result: bool) {
        match known {
            Some(known) => new < known,
            None => true,
        }
    }

    fn score(&self, cost: u64, tile: Vec2i, goal: Vec2i) -> (result: i32) {
        let far = tiles_apart(tile, goal);
        let wide: u128 = cost as u128 + 2 * (far as u128);
        if wide > 0x7fff_ffff {
            0x7fff_ffff
        } else {
            wide as i32
        }
    }
}

/// Geometry by whole tiles: a tile is far from a point that lies in
/// another tile, a map position from a point more than a tile away; no line
/// is walked, so a way is thinned out along the axes only.
pub struct StepGeometry {}

impl LineWalker for StepGeometry {
    open spec fn line_len(&self, from: LineStart, to: Vec2i, max_length: u64) -> usize {
        0
    }

    open spec fn line_tile(&self, from: LineStart, to: Vec2i, max_length: u64, k: usize) -> Vec2i {
        to
    }

    open spec fn line_complete(&self, from: LineStart, to: Vec2i, max_length: u64) -> bool {
        false
    }

    fn walk(&self, from: LineStart, to: Vec2i, max_length: u64) -> (result: (Vec<Vec2i>, bool)) {
        (Vec::new(), false)
    }
}

impl Geometry for StepGeometry {
    type Weights = StepWeights;

    fn weights(&self, costs: &Vec<TileIdCost>) -> (result: StepWeights) {
        let mut tiles: OrderedMap<bool> = OrderedMap::new();
        let mut i: usize = 0;
        while i < costs.len()
            invariant
                i <= costs.len(),
                tiles.wf(),
                forall|tile: i32|
                    #[trigger] tiles@.contains_key(tile as i128) == exists|k: int|
                        0 <= k < i && (#[trigger] costs[k]).id == tile,
            decreases costs.len() - i,
        {
            let ghost before = tiles@;
            tiles.insert(costs[i].id as i128, true);
            proof {
                assert forall|tile: i32|
                    #[trigger] tiles@.contains_key(tile as i128) == exists|k: int|
                        0 <= k < i + 1 && (#[trigger] costs[k]).id == tile by {
                    if tile == costs[i as int].id {
                        assert(costs[i as int].id == tile);
                    } else if before.contains_key(tile as i128) {
                        let k = choose|k: int| 0 <= k < i && (#[trigger] costs[k]).id == tile;
                        assert(costs[k].id == tile);
                    }
                }
            }
            i += 1;
        }
        StepWeights { tiles }
    }

    open spec fn far(&self, tile_pos: Vec2i, middle: bool, from: WorldPos) -> bool {
        tile_pos != from.tile
    }

    open spec fn map_far(&self, map_pos: Vec2i, from: WorldPos, limit: u64) -> bool {
        apart(map_pos, from.map_pos) > 1024
    }

    open spec fn rank(&self, tile_pos: Vec2i, from: WorldPos) -> i32 {
        if apart(tile_pos, from.tile) > i32::MAX {
            i32::MAX
        } else {
            apart(tile_pos, from.tile) as i32
        }
    }

    fn tile_is_far(&self, tile_pos: Vec2i, middle: bool, from: WorldPos) -> (result: bool) {
        tile_pos != from.tile
    }

    fn map_pos_is_far(&self, map_pos: Vec2i, from: WorldPos, limit: u64) -> (result: bool) {
        tiles_apart(map_pos, from.map_pos) > 1024
    }

    fn distance_score(&self, tile_pos: Vec2i, from: WorldPos) -> (result: i32) {
        let apart = tiles_apart(tile_pos, from.tile);
        if apart > 0x7fff_ffff {
            0x7fff_ffff
        } else {
            apart as i32
        }
    }
}

/// The greater of the distances along the two axes.
pub open spec fn apart(a: Vec2i, b: Vec2i) -> int {
    if crate::vec2::abs_spec(a.x - b.x) > crate::vec2::abs_spec(a.y - b.y) {
        crate::vec2::abs_spec(a.x - b.x)
    } else {
        crate::vec2::abs_spec(a.y - b.y)
    }
}

/// The greater of the distances between `a` and `b` along the two axes.
pub fn tiles_apart(a: Vec2i, b: Vec2i) -> (result: i64)
    ensures
        result == apart(a, b),
{
    let dx: i64 = a.x as i64 - b.x as i64;
    let dy: i64 = a.y as i64 - b.y as i64;
    let ax: i64 = if dx < 0 { -dx } else { dx };
    let ay: i64 = if dy < 0 { -dy } else { dy };
    if ax > ay {
        ax
    } else {
        ay
    }
}

} // verus!
