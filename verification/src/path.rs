//! The search for a way from tile to tile: a best-first search over the
//! eight neighbours of each tile, kept one tile away from what cannot be
//! walked, and the shortening of the way it finds.
//!
//! What a tile costs and how far two tiles lie apart is arithmetic on
//! fractions, which the search leaves to the `TileWeights` it is given;
//! the search itself decides by tiles alone.

use vstd::prelude::*;
use core::sync::atomic::AtomicBool;
use crate::cancel::is_cancelled;
use crate::grid::TileSet;
use crate::map_db::MapDb;
use crate::ordered_map::OrderedMap;
use crate::protocol::Vec2f;
use crate::vec2::{fits_i32, Vec2i};
use crate::world::PlayerWorld;

verus! {

/// The tiles that can be walked, the cost of each, and the arithmetic on
/// costs.
///
/// Of the arithmetic only this is asked: the same question gets the same
/// answer. Whatever the answers are, the search returns a way that can be
/// walked.
pub trait TileWeights: TileSet {
    /// What walking costs.
    type Cost: Copy;

    /// The cost of the tile `tile`, if it can be walked.
    spec fn cost_of(&self, tile: i32) -> Option<Self::Cost>;

    /// The cost of standing still.
    spec fn no_cost(&self) -> Self::Cost;

    /// The cost of a way that has cost `so_far` and goes on by one step,
    /// straight or diagonal, between tiles of the costs `from` and `to`.
    spec fn cost_with(
        &self,
        so_far: Self::Cost,
        diagonal: bool,
        from: Self::Cost,
        to: Self::Cost,
    ) -> Self::Cost;

    /// Whether a way of the cost `new` to a tile is to be preferred to the
    /// way known so far, of the cost `known`, or to knowing none.
    spec fn prefers(&self, new: Self::Cost, known: Option<Self::Cost>) -> bool;

    /// The rank of a tile in the search: the smaller, the sooner it is
    /// tried. `cost` is the cost of the way to `tile`; `goal` is where the
    /// search is headed.
    spec fn rank_of(&self, cost: Self::Cost, tile: Vec2i, goal: Vec2i) -> i32;

    /// Computes `cost_of`.
    fn get(&self, tile: i32) -> (result: Option<Self::Cost>)
        ensures
            result == self.cost_of(tile),
            result.is_some() == self.has(tile),
    ;

    /// Computes `no_cost`.
    fn start(&self) -> (result: Self::Cost)
        ensures
            result == self.no_cost(),
    ;

    /// Computes `cost_with`.
    fn extend(&self, so_far: Self::Cost, diagonal: bool, from: Self::Cost, to: Self::Cost) -> (result:
        Self::Cost)
        ensures
            result == self.cost_with(so_far, diagonal, from, to),
    ;

    /// Computes `prefers`.
    fn improves(&self, new: Self::Cost, known: Option<Self::Cost>) -> (result: bool)
        ensures
            result == self.prefers(new, known),
    ;

    /// Computes `rank_of`.
    fn score(&self, cost: Self::Cost, tile: Vec2i, goal: Vec2i) -> (result: i32)
        ensures
            result == self.rank_of(cost, tile, goal),
    ;
}

/// The key of a tile position: positions in the order of `x`, then of `y`.
pub open spec fn pos_key(position: Vec2i) -> int {
    position.x * 0x1_0000_0000 + (position.y + 0x8000_0000)
}

/// Two positions with one key are one position.
pub proof fn lemma_pos_key_injective(a: Vec2i, b: Vec2i)
    requires
        pos_key(a) == pos_key(b),
    ensures
        a == b,
{
}

pub fn make_pos_key(position: Vec2i) -> (result: i128)
    ensures
        result == pos_key(position),
{
    (position.x as i128) * 0x1_0000_0000 + (position.y as i128 + 0x8000_0000)
}

/// What was found at a tile position when it was looked up.
#[derive(Clone, Copy)]
pub struct Sighting {
    pub position: Vec2i,
    pub tile: Option<i32>,
}

/// The tiles that a search has looked up. A position is looked up in the
/// world once; from then on it is known by what was found.
pub struct TileCache {
    pub tiles: OrderedMap<Sighting>,
}

/// Whether `later` knows all that `earlier` knows.
pub open spec fn extends(
    earlier: Map<Vec2i, Option<i32>>,
    later: Map<Vec2i, Option<i32>>,
) -> bool {
    forall|p: Vec2i| #[trigger] earlier.contains_key(p) ==> later.contains_key(p) && later[p]
        == earlier[p]
}

/// Whether `seen` holds of the world only what looking up gives: a tile at
/// a place that the map holds is held as the map holds it.
#[verifier::opaque]
pub open spec fn seen_in<D: MapDb>(world: &PlayerWorld<'_, D>, seen: Map<Vec2i, Option<i32>>) -> bool {
    forall|p: Vec2i| #[trigger]
        seen.contains_key(p) && world.map.holds_tile(
            world.player_segment_id,
            world.segment_pos(p),
        ) ==> seen[p] == world.map.local_tile_at(world.player_segment_id, world.segment_pos(p))
}

impl TileCache {
    /// Whether every sighting is filed under its position.
    pub open spec fn wf(&self) -> bool {
        &&& self.tiles.wf()
        &&& forall|k: i128| #[trigger]
            self.tiles@.contains_key(k) ==> k == pos_key(self.tiles@[k].position)
    }

    /// What is known: for each position looked up, the tile found there,
    /// or nothing where no tile was found.
    pub open spec fn seen(&self) -> Map<Vec2i, Option<i32>> {
        Map::new(
            |p: Vec2i| self.tiles@.contains_key(pos_key(p) as i128),
            |p: Vec2i| self.tiles@[pos_key(p) as i128].tile,
        )
    }

    pub fn new() -> (result: Self)
        ensures
            result.wf(),
            result.seen() == Map::<Vec2i, Option<i32>>::empty(),
    {
        let result = TileCache { tiles: OrderedMap::new() };
        assert(result.seen() =~= Map::<Vec2i, Option<i32>>::empty());
        result
    }

    /// Nothing seen is seen truly of every world.
    pub proof fn lemma_nothing_seen<D: MapDb>(world: &PlayerWorld<'_, D>)
        ensures
            seen_in(world, Map::<Vec2i, Option<i32>>::empty()),
    {
        reveal(seen_in);
    }

    /// The tile at `position`: as known, else as the world shows it now.
    pub fn lookup<D: MapDb>(&mut self, world: &PlayerWorld<'_, D>, position: Vec2i) -> (result:
        Option<i32>)
        requires
            old(self).wf(),
            world.wf(),
        ensures
            final(self).wf(),
            extends(old(self).seen(), final(self).seen()),
            seen_in(world, old(self).seen()) ==> seen_in(world, final(self).seen()),
            final(self).seen().contains_key(position),
            final(self).seen()[position] == result,
            final(self).seen() == old(self).seen().insert(position, result),
    {
        proof {
            reveal(seen_in);
        }
        let key = make_pos_key(position);
        let known = match self.tiles.get(key) {
            Some(sighting) => Some(sighting.tile),
            None => None,
        };
        match known {
            Some(tile) => {
                proof {
                    assert(self.seen() =~= old(self).seen().insert(position, tile));
                }
                tile
            },
            None => {
                let tile = world.get_tile(position);
                self.tiles.insert(key, Sighting { position, tile });
                proof {
                    assert forall|p: Vec2i|
                        self.seen().contains_key(p) == old(self).seen().insert(
                            position,
                            tile,
                        ).contains_key(p) by {
                        if pos_key(p) == pos_key(position) {
                            lemma_pos_key_injective(p, position);
                        }
                    }
                    assert(self.seen() =~= old(self).seen().insert(position, tile));
                }
                tile
            },
        }
    }
}

/// Whether the tile at `p` is known and can be entered: no tile was found
/// there, or one that can be walked.
pub open spec fn known_reachable<W: TileSet>(
    seen: Map<Vec2i, Option<i32>>,
    weights: &W,
    p: Vec2i,
) -> bool {
    seen.contains_key(p) && match seen[p] {
        Some(tile) => weights.has(tile),
        None => true,
    }
}

/// Whether the tile at `p` is known and can be walked.
pub open spec fn known_walkable<W: TileSet>(
    seen: Map<Vec2i, Option<i32>>,
    weights: &W,
    p: Vec2i,
) -> bool {
    seen.contains_key(p) && match seen[p] {
        Some(tile) => weights.has(tile),
        None => false,
    }
}

/// Whether the tile `dx` and `dy` away from `p`, if there is such a
/// position, is known and can be entered.
pub open spec fn side_open<W: TileSet>(
    seen: Map<Vec2i, Option<i32>>,
    weights: &W,
    p: Vec2i,
    dx: int,
    dy: int,
) -> bool {
    fits_i32(p.x + dx) && fits_i32(p.y + dy) ==> known_reachable(
        seen,
        weights,
        Vec2i { x: (p.x + dx) as i32, y: (p.y + dy) as i32 },
    )
}

/// Whether the side of `to` that lies `dx` and `dy` away is `from` itself
/// or is open.
pub open spec fn margin_open<W: TileSet>(
    seen: Map<Vec2i, Option<i32>>,
    weights: &W,
    from: Vec2i,
    to: Vec2i,
    dx: int,
    dy: int,
) -> bool {
    (to.x + dx == from.x && to.y + dy == from.y) || side_open(seen, weights, to, dx, dy)
}

/// Whether the step from `from` to the neighbour `to` may be taken: both
/// tiles can be walked; a diagonal step cuts no corner, so both tiles
/// beside it can be entered; and every side of `to` but `from` can be
/// entered, which keeps the way one tile off what cannot be walked.
pub open spec fn link_ok<W: TileSet>(
    seen: Map<Vec2i, Option<i32>>,
    weights: &W,
    from: Vec2i,
    to: Vec2i,
) -> bool {
    let dx = to.x - from.x;
    let dy = to.y - from.y;
    &&& -1 <= dx <= 1
    &&& -1 <= dy <= 1
    &&& !(dx == 0 && dy == 0)
    &&& known_walkable(seen, weights, from)
    &&& known_walkable(seen, weights, to)
    &&& (dx != 0 && dy != 0 ==> known_reachable(seen, weights, Vec2i { x: from.x, y: to.y })
        && known_reachable(seen, weights, Vec2i { x: to.x, y: from.y }))
    &&& margin_open(seen, weights, from, to, 1, 0)
    &&& margin_open(seen, weights, from, to, -1, 0)
    &&& margin_open(seen, weights, from, to, 0, 1)
    &&& margin_open(seen, weights, from, to, 0, -1)
}

/// A step that may be taken may still be taken when more is known.
pub proof fn lemma_link_stays_ok<W: TileSet>(
    earlier: Map<Vec2i, Option<i32>>,
    later: Map<Vec2i, Option<i32>>,
    weights: &W,
    from: Vec2i,
    to: Vec2i,
)
    requires
        extends(earlier, later),
        link_ok(earlier, weights, from, to),
    ensures
        link_ok(later, weights, from, to),
{
    assert(earlier.contains_key(from));
    assert(earlier.contains_key(to));
    let dx = to.x - from.x;
    let dy = to.y - from.y;
    if dx != 0 && dy != 0 {
        assert(earlier.contains_key(Vec2i { x: from.x, y: to.y }));
        assert(earlier.contains_key(Vec2i { x: to.x, y: from.y }));
    }
    lemma_margin_stays_open(earlier, later, weights, from, to, 1, 0);
    lemma_margin_stays_open(earlier, later, weights, from, to, -1, 0);
    lemma_margin_stays_open(earlier, later, weights, from, to, 0, 1);
    lemma_margin_stays_open(earlier, later, weights, from, to, 0, -1);
}

/// An open side stays open when more is known.
pub proof fn lemma_margin_stays_open<W: TileSet>(
    earlier: Map<Vec2i, Option<i32>>,
    later: Map<Vec2i, Option<i32>>,
    weights: &W,
    from: Vec2i,
    to: Vec2i,
    dx: int,
    dy: int,
)
    requires
        extends(earlier, later),
        margin_open(earlier, weights, from, to, dx, dy),
    ensures
        margin_open(later, weights, from, to, dx, dy),
{
    if !(to.x + dx == from.x && to.y + dy == from.y) {
        if fits_i32(to.x + dx) && fits_i32(to.y + dy) {
            assert(earlier.contains_key(Vec2i { x: (to.x + dx) as i32, y: (to.y + dy) as i32 }));
        }
    }
}

fn is_reachable<D: MapDb, W: TileWeights>(
    world: &PlayerWorld<'_, D>,
    cache: &mut TileCache,
    weights: &W,
    p: Vec2i,
) -> (result: bool)
    requires
        old(cache).wf(),
        world.wf(),
    ensures
        final(cache).wf(),
        extends(old(cache).seen(), final(cache).seen()),
        seen_in(world, old(cache).seen()) ==> seen_in(world, final(cache).seen()),
        final(cache).seen().contains_key(p),
        result == known_reachable(final(cache).seen(), weights, p),
{
    match cache.lookup(world, p) {
        Some(tile) => weights.contains(tile),
        None => true,
    }
}

fn side_is_open<D: MapDb, W: TileWeights>(
    world: &PlayerWorld<'_, D>,
    cache: &mut TileCache,
    weights: &W,
    from: Vec2i,
    to: Vec2i,
    dx: i32,
    dy: i32,
) -> (result: bool)
    requires
        old(cache).wf(),
        world.wf(),
        -1 <= dx <= 1,
        -1 <= dy <= 1,
    ensures
        final(cache).wf(),
        extends(old(cache).seen(), final(cache).seen()),
        seen_in(world, old(cache).seen()) ==> seen_in(world, final(cache).seen()),
        result == margin_open(final(cache).seen(), weights, from, to, dx as int, dy as int),
        margin_settled(final(cache).seen(), from, to, dx as int, dy as int),
{
    let x: i64 = to.x as i64 + dx as i64;
    let y: i64 = to.y as i64 + dy as i64;
    if x == from.x as i64 && y == from.y as i64 {
        return true;
    }
    if x < i32::MIN as i64 || x > i32::MAX as i64 || y < i32::MIN as i64 || y > i32::MAX as i64 {
        return true;
    }
    is_reachable(world, cache, weights, Vec2i { x: x as i32, y: y as i32 })
}

/// Earlier knowledge is kept through two growths.
pub proof fn lemma_extends_transitive(
    a: Map<Vec2i, Option<i32>>,
    b: Map<Vec2i, Option<i32>>,
    c: Map<Vec2i, Option<i32>>,
)
    requires
        extends(a, b),
        extends(b, c),
    ensures
        extends(a, c),
{
    assert forall|p: Vec2i| #[trigger] a.contains_key(p) implies c.contains_key(p) && c[p]
        == a[p] by {
        assert(b.contains_key(p));
    }
}

/// How a tile was reached: from `prev` by one step.
#[derive(Clone, Copy)]
pub struct Step {
    pub tile: Vec2i,
    pub prev: Vec2i,
}

/// Whether every step of the record may be taken by what is known, and
/// is filed under the tile it reaches.
pub open spec fn steps_ok<W: TileSet>(
    steps: Map<i128, Step>,
    seen: Map<Vec2i, Option<i32>>,
    weights: &W,
) -> bool {
    forall|k: i128| #[trigger]
        steps.contains_key(k) ==> k == pos_key(steps[k].tile) && link_ok(
            seen,
            weights,
            steps[k].prev,
            steps[k].tile,
        )
}

/// Steps that may be taken may still be taken when more is known.
pub proof fn lemma_steps_stay_ok<W: TileSet>(
    steps: Map<i128, Step>,
    earlier: Map<Vec2i, Option<i32>>,
    later: Map<Vec2i, Option<i32>>,
    weights: &W,
)
    requires
        extends(earlier, later),
        steps_ok(steps, earlier, weights),
    ensures
        steps_ok(steps, later, weights),
{
    assert forall|k: i128| #[trigger] steps.contains_key(k) implies k == pos_key(steps[k].tile)
        && link_ok(later, weights, steps[k].prev, steps[k].tile) by {
        lemma_link_stays_ok(earlier, later, weights, steps[k].prev, steps[k].tile);
    }
}

/// Whether `path` leads back from its first tile to `src` step by step:
/// each tile was reached from the tile behind it, the last from `src`.
pub open spec fn leads_back(steps: Map<i128, Step>, src: Vec2i, path: Seq<Vec2i>) -> bool {
    forall|i: int|
        0 <= i < path.len() ==> steps.contains_key(pos_key(#[trigger] path[i]) as i128)
            && steps[pos_key(path[i]) as i128].prev == (if i + 1 < path.len() {
            path[i + 1]
        } else {
            src
        })
}

/// Whether every step of the way may be taken: read from its end, `path`
/// goes from `src` to its first tile by steps between neighbours.
pub open spec fn path_linked<W: TileSet>(
    seen: Map<Vec2i, Option<i32>>,
    weights: &W,
    src: Vec2i,
    path: Seq<Vec2i>,
) -> bool {
    forall|i: int|
        0 <= i < path.len() ==> link_ok(
            seen,
            weights,
            if i + 1 < path.len() {
                path[i + 1]
            } else {
                src
            },
            #[trigger] path[i],
        )
}

/// A way that leads back through steps that may be taken is linked.
pub proof fn lemma_leads_back_is_linked<W: TileSet>(
    steps: Map<i128, Step>,
    seen: Map<Vec2i, Option<i32>>,
    weights: &W,
    src: Vec2i,
    path: Seq<Vec2i>,
)
    requires
        steps_ok(steps, seen, weights),
        leads_back(steps, src, path),
    ensures
        path_linked(seen, weights, src, path),
{
    assert forall|i: int| 0 <= i < path.len() implies link_ok(
        seen,
        weights,
        if i + 1 < path.len() {
            path[i + 1]
        } else {
            src
        },
        #[trigger] path[i],
    ) by {
        let k = pos_key(path[i]) as i128;
        assert(steps.contains_key(k));
        lemma_pos_key_injective(steps[k].tile, path[i]);
    }
}

/// The way from `current` back to `src` through the record of steps,
/// `current` first and without `src`, where the record leads back to
/// `src` within `fuel` steps more.
pub open spec fn way_back(steps: Map<i128, Step>, src: Vec2i, current: Vec2i, fuel: nat) -> Option<
    Seq<Vec2i>,
>
    decreases fuel,
{
    if !steps.contains_key(pos_key(current) as i128) {
        None
    } else {
        let prev = steps[pos_key(current) as i128].prev;
        if prev == src {
            Some(seq![current])
        } else if fuel == 0 {
            None
        } else {
            match way_back(steps, src, prev, (fuel - 1) as nat) {
                Some(rest) => Some(seq![current] + rest),
                None => None,
            }
        }
    }
}

/// The way with `head` before it, if there is one.
pub open spec fn headed(head: Seq<Vec2i>, way: Option<Seq<Vec2i>>) -> Option<Seq<Vec2i>> {
    match way {
        Some(rest) => Some(head + rest),
        None => None,
    }
}

/// The way from `dst_tile_pos` back to `src_tile_pos` through the record of
/// steps, the goal first and without the start; nothing where the record
/// does not lead back to the start within as many steps as it holds.
pub fn reconstruct_path(src_tile_pos: Vec2i, dst_tile_pos: Vec2i,
    backtrack: &OrderedMap<Step>) -> (result:
    Vec<Vec2i>)
    requires
        backtrack.wf(),
    ensures
        result@ == match way_back(
            backtrack@,
            src_tile_pos,
            dst_tile_pos,
            backtrack.keys.len() as nat,
        ) {
            Some(way) => way,
            None => Seq::empty(),
        },
        result.len() > 0 ==> result[0] == dst_tile_pos,
        leads_back(backtrack@, src_tile_pos, result@),
{
    let mut result: Vec<Vec2i> = Vec::new();
    result.push(dst_tile_pos);
    let mut current = dst_tile_pos;
    let mut fuel: usize = backtrack.keys.len();
    let ghost whole = way_back(backtrack@, src_tile_pos, dst_tile_pos, backtrack.keys.len() as nat);
    proof {
        assert(result@.drop_last() =~= Seq::<Vec2i>::empty());
        let rest = way_back(backtrack@, src_tile_pos, current, fuel as nat);
        if rest.is_some() {
            assert(result@.drop_last() + rest.unwrap() =~= rest.unwrap());
        }
    }
    loop
        invariant
            backtrack.wf(),
            result.len() > 0,
            result[0] == dst_tile_pos,
            current == result[result.len() - 1],
            whole == way_back(
                backtrack@,
                src_tile_pos,
                dst_tile_pos,
                backtrack.keys.len() as nat,
            ),
            whole == headed(
                result@.drop_last(),
                way_back(backtrack@, src_tile_pos, current, fuel as nat),
            ),
            forall|i: int|
                0 <= i < result.len() - 1 ==> backtrack@.contains_key(
                    pos_key(#[trigger] result[i]) as i128,
                ) && backtrack@[pos_key(result[i]) as i128].prev == result[i + 1],
        decreases fuel,
    {
        let prev = match backtrack.get(make_pos_key(current)) {
            Some(step) => step.prev,
            None => {
                return Vec::new();
            },
        };
        if prev == src_tile_pos {
            proof {
                assert(result@.drop_last() + seq![current] =~= result@);
            }
            return result;
        }
        if fuel == 0 {
            return Vec::new();
        }
        proof {
            let head = result@.drop_last();
            let rest = way_back(backtrack@, src_tile_pos, prev, (fuel - 1) as nat);
            assert(result@.push(prev).drop_last() =~= head + seq![current]);
            if rest.is_some() {
                assert(head + (seq![current] + rest.unwrap()) =~= (head + seq![current])
                    + rest.unwrap());
            }
        }
        fuel -= 1;
        result.push(prev);
        current = prev;
    }
}

/// A search under way.
///
/// `ordered` holds the tiles to try, in the order of their rank and, within
/// one rank, of their coming; `costs` the cost of the best way known to
/// each tile; `backtrack` the last step of that way; `open_set` the tiles
/// that wait in `ordered`; `cache` what was looked up.
pub struct Search<C> {
    pub src: Vec2i,
    pub dst: Vec2i,
    pub ordered: OrderedMap<Vec2i>,
    pub pushed: u64,
    pub costs: OrderedMap<C>,
    pub backtrack: OrderedMap<Step>,
    pub open_set: OrderedMap<bool>,
    pub cache: TileCache,
    pub iterations: usize,
}

/// What a search has come to.
pub enum SearchStatus {
    /// There is more to try.
    Running,
    /// The search is over: the way found, the goal first and without the
    /// start, or nothing.
    Finished(Vec<Vec2i>),
}

/// The books of a search: all of it but what it looked up.
pub struct SearchData<C> {
    pub ordered: Map<i128, Vec2i>,
    pub pushed: u64,
    pub costs: Map<i128, C>,
    pub backtrack: Map<i128, Step>,
    pub open_set: Map<i128, bool>,
    pub iterations: usize,
}

/// What one step of a search comes to: the books of the search that goes
/// on, or the way of the search that is over.
pub enum Stepped<C> {
    Running(SearchData<C>),
    Finished(Seq<Vec2i>),
}

/// The key under which a tile waits to be tried: by its rank, and within
/// one rank by its coming.
pub open spec fn queue_key(rank: i32, pushed: u64) -> i128 {
    (rank * 0x1_0000_0000_0000_0000 + pushed) as i128
}

/// Whether `key` is the smallest key of the tiles that wait.
pub open spec fn is_least(ordered: Map<i128, Vec2i>, key: i128) -> bool {
    ordered.contains_key(key) && forall|other: i128| #[trigger]
        ordered.contains_key(other) ==> key <= other
}

/// The smallest key of the tiles that wait.
pub open spec fn least_key(ordered: Map<i128, Vec2i>) -> i128 {
    choose|key: i128| is_least(ordered, key)
}

/// The tile `dx` and `dy` away from `from`.
pub open spec fn beside(from: Vec2i, dx: int, dy: int) -> Vec2i {
    Vec2i { x: (from.x + dx) as i32, y: (from.y + dy) as i32 }
}

/// The books of a search that has tried nothing yet: the start waits, at
/// no cost.
pub open spec fn started<W: TileWeights>(weights: &W, src: Vec2i, dst: Vec2i) -> SearchData<
    W::Cost,
> {
    SearchData {
        ordered: Map::<i128, Vec2i>::empty().insert(
            queue_key(weights.rank_of(weights.no_cost(), src, dst), 0),
            src,
        ),
        pushed: 1,
        costs: Map::<i128, W::Cost>::empty().insert(pos_key(src) as i128, weights.no_cost()),
        backtrack: Map::empty(),
        open_set: Map::empty(),
        iterations: 0,
    }
}

/// The books once a way of the cost `cost` was found to the tile `next`
/// by a step from `from`: where it is preferred to the way known so far, it
/// is noted, and the tile waits to be tried unless it waits already.
pub open spec fn relaxed<W: TileWeights>(
    data: SearchData<W::Cost>,
    weights: &W,
    dst: Vec2i,
    from: Vec2i,
    next: Vec2i,
    cost: W::Cost,
) -> SearchData<W::Cost> {
    let key = pos_key(next) as i128;
    let known = if data.costs.contains_key(key) {
        Some(data.costs[key])
    } else {
        None
    };
    if !weights.prefers(cost, known) {
        data
    } else {
        let noted = SearchData {
            backtrack: data.backtrack.insert(key, Step { tile: next, prev: from }),
            costs: data.costs.insert(key, cost),
            ..data
        };
        if data.open_set.contains_key(key) {
            noted
        } else if data.pushed == u64::MAX {
            SearchData { open_set: data.open_set.insert(key, true), ..noted }
        } else {
            SearchData {
                open_set: data.open_set.insert(key, true),
                ordered: data.ordered.insert(
                    queue_key(weights.rank_of(cost, next, dst), data.pushed),
                    next,
                ),
                pushed: (data.pushed + 1) as u64,
                ..noted
            }
        }
    }
}

/// The books once the step from `from`, a tile of the cost `weight`
/// reached at the cost `cost`, to the tile `dx` and `dy` away was weighed
/// by what `seen` holds of the map: a step that may not be taken changes
/// nothing.
pub open spec fn weighed<W: TileWeights>(
    data: SearchData<W::Cost>,
    seen: Map<Vec2i, Option<i32>>,
    weights: &W,
    dst: Vec2i,
    from: Vec2i,
    weight: W::Cost,
    cost: W::Cost,
    dx: int,
    dy: int,
) -> SearchData<W::Cost> {
    let next = beside(from, dx, dy);
    if fits_i32(from.x + dx) && fits_i32(from.y + dy) && link_ok(seen, weights, from, next) {
        relaxed(
            data,
            weights,
            dst,
            from,
            next,
            weights.cost_with(
                cost,
                dx != 0 && dy != 0,
                weight,
                weights.cost_of(seen[next].unwrap()).unwrap(),
            ),
        )
    } else {
        data
    }
}

/// The neighbour number `edge` of a tile, as the search goes round them.
pub open spec fn edge_shift(edge: int) -> (int, int) {
    if edge == 0 {
        (-1, -1)
    } else if edge == 1 {
        (-1, 0)
    } else if edge == 2 {
        (-1, 1)
    } else if edge == 3 {
        (0, -1)
    } else if edge == 4 {
        (0, 1)
    } else if edge == 5 {
        (1, -1)
    } else if edge == 6 {
        (1, 0)
    } else {
        (1, 1)
    }
}

/// The books once the steps to the first `n` neighbours of `from` were
/// weighed, one after the other.
pub open spec fn edges_weighed<W: TileWeights>(
    data: SearchData<W::Cost>,
    seen: Map<Vec2i, Option<i32>>,
    weights: &W,
    dst: Vec2i,
    from: Vec2i,
    weight: W::Cost,
    cost: W::Cost,
    n: int,
) -> SearchData<W::Cost>
    decreases n,
{
    if n <= 0 {
        data
    } else {
        weighed(
            edges_weighed(data, seen, weights, dst, from, weight, cost, n - 1),
            seen,
            weights,
            dst,
            from,
            weight,
            cost,
            edge_shift(n - 1).0,
            edge_shift(n - 1).1,
        )
    }
}

/// What trying the next tile comes to, by what `seen` holds of the map.
/// The search is over where no tile waits; where the tile that waits first
/// is the goal, with the way that the record of steps leads back by; and
/// where it was cancelled or has tried `max_iterations` tiles. Else the
/// tile waits no more, and the steps to its neighbours are weighed if it
/// can be walked and a way to it is known.
pub open spec fn stepped<W: TileWeights>(
    data: SearchData<W::Cost>,
    seen: Map<Vec2i, Option<i32>>,
    weights: &W,
    src: Vec2i,
    dst: Vec2i,
    max_iterations: usize,
    cancelled: bool,
) -> Stepped<W::Cost> {
    if !is_least(data.ordered, least_key(data.ordered)) {
        Stepped::Finished(Seq::empty())
    } else {
        let tile = data.ordered[least_key(data.ordered)];
        let key = pos_key(tile) as i128;
        if tile == dst {
            Stepped::Finished(
                match way_back(data.backtrack, src, dst, data.backtrack.dom().len()) {
                    Some(way) => way,
                    None => Seq::empty(),
                },
            )
        } else if cancelled || data.iterations >= max_iterations {
            Stepped::Finished(Seq::empty())
        } else {
            let popped = SearchData {
                ordered: data.ordered.remove(least_key(data.ordered)),
                open_set: data.open_set.remove(key),
                ..data
            };
            let tried = if seen.contains_key(tile) && seen[tile].is_some() && weights.cost_of(
                seen[tile].unwrap(),
            ).is_some() && data.costs.contains_key(key) {
                edges_weighed(
                    popped,
                    seen,
                    weights,
                    dst,
                    tile,
                    weights.cost_of(seen[tile].unwrap()).unwrap(),
                    data.costs[key],
                    8,
                )
            } else {
                popped
            };
            Stepped::Running(SearchData { iterations: (data.iterations + 1) as usize, ..tried })
        }
    }
}

/// The way that a search with the books `data` comes to when it is never
/// cancelled, by what `seen` holds of the map.
pub open spec fn run<W: TileWeights>(
    data: SearchData<W::Cost>,
    seen: Map<Vec2i, Option<i32>>,
    weights: &W,
    src: Vec2i,
    dst: Vec2i,
    max_iterations: usize,
) -> Seq<Vec2i>
    decreases max_iterations - data.iterations,
{
    match stepped(data, seen, weights, src, dst, max_iterations, false) {
        Stepped::Finished(way) => way,
        Stepped::Running(next) => if data.iterations < max_iterations && next.iterations
            == data.iterations + 1 {
            run(next, seen, weights, src, dst, max_iterations)
        } else {
            Seq::empty()
        },
    }
}

/// What is known of a tile stays as it is when more is known.
pub proof fn lemma_known_stays<W: TileSet>(
    earlier: Map<Vec2i, Option<i32>>,
    later: Map<Vec2i, Option<i32>>,
    weights: &W,
    p: Vec2i,
)
    requires
        extends(earlier, later),
        earlier.contains_key(p),
    ensures
        later.contains_key(p),
        later[p] == earlier[p],
        known_reachable(later, weights, p) == known_reachable(earlier, weights, p),
        known_walkable(later, weights, p) == known_walkable(earlier, weights, p),
{
}

/// Whether the step from `from` to the neighbour `to` may be taken, and
/// the cost of `to` if it may. What was looked up settles it: more
/// knowledge does not change the answer.
fn may_step<D: MapDb, W: TileWeights>(
    world: &PlayerWorld<'_, D>,
    cache: &mut TileCache,
    weights: &W,
    from: Vec2i,
    dx: i32,
    dy: i32,
) -> (result: Option<(Vec2i, W::Cost)>)
    requires
        old(cache).wf(),
        world.wf(),
        -1 <= dx <= 1,
        -1 <= dy <= 1,
        !(dx == 0 && dy == 0),
        known_walkable(old(cache).seen(), weights, from),
    ensures
        final(cache).wf(),
        extends(old(cache).seen(), final(cache).seen()),
        seen_in(world, old(cache).seen()) ==> seen_in(world, final(cache).seen()),
        result.is_some() ==> result.unwrap().0 == beside(from, dx as int, dy as int) && link_ok(
            final(cache).seen(),
            weights,
            from,
            result.unwrap().0,
        ),
        forall|later: Map<Vec2i, Option<i32>>| #[trigger]
            extends(final(cache).seen(), later) ==> {
                &&& result.is_some() == (fits_i32(from.x + dx) && fits_i32(from.y + dy) && link_ok(
                    later,
                    weights,
                    from,
                    beside(from, dx as int, dy as int),
                ))
                &&& result.is_some() ==> Some(result.unwrap().1) == weights.cost_of(
                    later[beside(from, dx as int, dy as int)].unwrap(),
                )
            },
{
    let ghost seen0 = cache.seen();
    let x: i64 = from.x as i64 + dx as i64;
    let y: i64 = from.y as i64 + dy as i64;
    if x < i32::MIN as i64 || x > i32::MAX as i64 || y < i32::MIN as i64 || y > i32::MAX as i64 {
        return None;
    }
    let next = Vec2i { x: x as i32, y: y as i32 };
    let found = cache.lookup(world, next);
    let ghost seen1 = cache.seen();
    let next_weight = match found {
        Some(tile) => weights.get(tile),
        None => None,
    };
    let next_weight = match next_weight {
        Some(weight) => weight,
        None => {
            proof {
                assert forall|later: Map<Vec2i, Option<i32>>| #[trigger]
                    extends(seen1, later) implies !link_ok(later, weights, from, next) by {
                    lemma_known_stays(seen1, later, weights, next);
                }
            }
            return None;
        },
    };
    let first = Vec2i { x: from.x, y: next.y };
    let second = Vec2i { x: next.x, y: from.y };
    if dx != 0 && dy != 0 {
        if !is_reachable(world, cache, weights, first) {
            proof {
                let seen = cache.seen();
                assert forall|later: Map<Vec2i, Option<i32>>| #[trigger]
                    extends(seen, later) implies !link_ok(later, weights, from, next) by {
                    lemma_known_stays(seen, later, weights, first);
                }
                lemma_extends_transitive(seen0, seen1, seen);
            }
            return None;
        }
        let ghost seen_a = cache.seen();
        if !is_reachable(world, cache, weights, second) {
            proof {
                let seen = cache.seen();
                assert forall|later: Map<Vec2i, Option<i32>>| #[trigger]
                    extends(seen, later) implies !link_ok(later, weights, from, next) by {
                    lemma_known_stays(seen, later, weights, second);
                }
                lemma_extends_transitive(seen1, seen_a, seen);
                lemma_extends_transitive(seen0, seen1, seen);
            }
            return None;
        }
        proof {
            lemma_extends_transitive(seen1, seen_a, cache.seen());
            lemma_known_stays(seen_a, cache.seen(), weights, first);
        }
    }
    let ghost seen2 = cache.seen();
    proof {
        lemma_extends_transitive(seen0, seen1, seen2);
    }
    let mut side: usize = 0;
    while side < 4
        invariant
            side <= 4,
            cache.wf(),
            world.wf(),
            extends(seen2, cache.seen()),
            seen_in(world, seen0) ==> seen_in(world, cache.seen()),
            extends(seen0, seen2),
            seen0 == old(cache).seen(),
            next == beside(from, dx as int, dy as int),
            fits_i32(from.x + dx) && fits_i32(from.y + dy),
            forall|k: int|
                0 <= k < side ==> margin_open(
                    cache.seen(),
                    weights,
                    from,
                    next,
                    #[trigger] side_shift(k).0,
                    side_shift(k).1,
                ) && margin_settled(cache.seen(), from, next, side_shift(k).0, side_shift(k).1),
        decreases 4 - side,
    {
        let (sx, sy): (i32, i32) = if side == 0 {
            (1, 0)
        } else if side == 1 {
            (-1, 0)
        } else if side == 2 {
            (0, 1)
        } else {
            (0, -1)
        };
        let ghost before = cache.seen();
        let open = side_is_open(world, cache, weights, from, next, sx, sy);
        proof {
            lemma_extends_transitive(seen2, before, cache.seen());
            assert forall|k: int| 0 <= k < side implies margin_open(
                cache.seen(),
                weights,
                from,
                next,
                #[trigger] side_shift(k).0,
                side_shift(k).1,
            ) && margin_settled(cache.seen(), from, next, side_shift(k).0, side_shift(k).1) by {
                lemma_margin_stays_settled(
                    before,
                    cache.seen(),
                    weights,
                    from,
                    next,
                    side_shift(k).0,
                    side_shift(k).1,
                );
            }
            assert(side_shift(side as int) == (sx as int, sy as int));
        }
        if !open {
            proof {
                let seen = cache.seen();
                assert forall|later: Map<Vec2i, Option<i32>>| #[trigger]
                    extends(seen, later) implies !link_ok(later, weights, from, next) by {
                    lemma_margin_stays_settled(
                        seen,
                        later,
                        weights,
                        from,
                        next,
                        sx as int,
                        sy as int,
                    );
                }
                lemma_extends_transitive(seen0, seen2, seen);
            }
            return None;
        }
        side += 1;
    }
    proof {
        let seen = cache.seen();
        lemma_extends_transitive(seen0, seen2, seen);
        lemma_extends_transitive(seen1, seen2, seen);
        lemma_known_stays(seen0, seen, weights, from);
        lemma_known_stays(seen1, seen, weights, next);
        assert(margin_open(seen, weights, from, next, side_shift(0).0, side_shift(0).1));
        assert(margin_open(seen, weights, from, next, side_shift(1).0, side_shift(1).1));
        assert(margin_open(seen, weights, from, next, side_shift(2).0, side_shift(2).1));
        assert(margin_open(seen, weights, from, next, side_shift(3).0, side_shift(3).1));
        if dx != 0 && dy != 0 {
            lemma_known_stays(seen2, seen, weights, first);
            lemma_known_stays(seen2, seen, weights, second);
        }
        assert(link_ok(seen, weights, from, next));
        assert forall|later: Map<Vec2i, Option<i32>>| #[trigger] extends(seen, later) implies link_ok(
            later,
            weights,
            from,
            next,
        ) && later[next] == seen1[next] by {
            lemma_link_stays_ok(seen, later, weights, from, next);
            lemma_known_stays(seen1, seen, weights, next);
            lemma_known_stays(seen, later, weights, next);
        }
    }
    Some((next, next_weight))
}

/// The side number `side` of a tile, as the search goes round them.
pub open spec fn side_shift(side: int) -> (int, int) {
    if side == 0 {
        (1, 0)
    } else if side == 1 {
        (-1, 0)
    } else if side == 2 {
        (0, 1)
    } else {
        (0, -1)
    }
}

/// Whether what is known settles whether the side of `to` that lies `dx`
/// and `dy` away is open: the side is `from`, or there is no such
/// position, or the tile there was looked up.
pub open spec fn margin_settled(
    seen: Map<Vec2i, Option<i32>>,
    from: Vec2i,
    to: Vec2i,
    dx: int,
    dy: int,
) -> bool {
    (to.x + dx == from.x && to.y + dy == from.y) || !(fits_i32(to.x + dx) && fits_i32(to.y + dy))
        || seen.contains_key(beside(to, dx, dy))
}

/// A side that is settled stays as it is when more is known.
pub proof fn lemma_margin_stays_settled<W: TileSet>(
    earlier: Map<Vec2i, Option<i32>>,
    later: Map<Vec2i, Option<i32>>,
    weights: &W,
    from: Vec2i,
    to: Vec2i,
    dx: int,
    dy: int,
)
    requires
        extends(earlier, later),
        margin_settled(earlier, from, to, dx, dy),
    ensures
        margin_settled(later, from, to, dx, dy),
        margin_open(later, weights, from, to, dx, dy) == margin_open(
            earlier,
            weights,
            from,
            to,
            dx,
            dy,
        ),
{
    if !(to.x + dx == from.x && to.y + dy == from.y) && fits_i32(to.x + dx) && fits_i32(to.y + dy) {
        lemma_known_stays(earlier, later, weights, beside(to, dx, dy));
    }
}

impl<C: Copy> Search<C> {
    /// Whether the maps are in order and every step recorded may be taken.
    pub open spec fn wf<W: TileWeights<Cost = C>>(&self, weights: &W) -> bool {
        &&& self.ordered.wf()
        &&& self.costs.wf()
        &&& self.backtrack.wf()
        &&& self.open_set.wf()
        &&& self.cache.wf()
        &&& steps_ok(self.backtrack@, self.cache.seen(), weights)
    }

    /// The books of the search.
    pub open spec fn data(&self) -> SearchData<C> {
        SearchData {
            ordered: self.ordered@,
            pushed: self.pushed,
            costs: self.costs@,
            backtrack: self.backtrack@,
            open_set: self.open_set@,
            iterations: self.iterations,
        }
    }

    /// The tile that is tried next.
    pub open spec fn next_tile(&self) -> Option<Vec2i> {
        if self.ordered.keys.len() > 0 {
            Some(self.ordered.values[0])
        } else {
            None
        }
    }

    /// The first key of the tiles that wait is the smallest, and with no
    /// key none is.
    pub proof fn lemma_least(&self)
        requires
            self.ordered.wf(),
        ensures
            self.ordered.keys.len() > 0 ==> is_least(self.ordered@, self.ordered.keys[0])
                && least_key(self.ordered@) == self.ordered.keys[0],
            self.ordered.keys.len() == 0 ==> !is_least(self.ordered@, least_key(self.ordered@)),
    {
        if self.ordered.keys.len() > 0 {
            self.ordered.lemma_entry(0);
            assert forall|other: i128| #[trigger] self.ordered@.contains_key(other) implies self.ordered.keys[0]
                <= other by {
                self.ordered.lemma_key_index(other);
                let at = self.ordered.keys@.index_of(other);
                if at > 0 {
                    assert(self.ordered.keys[0] < self.ordered.keys[at]);
                }
            }
            assert(is_least(self.ordered@, self.ordered.keys[0]));
            let chosen = least_key(self.ordered@);
            assert(is_least(self.ordered@, chosen));
            assert(self.ordered@.contains_key(chosen));
            assert(self.ordered@.contains_key(self.ordered.keys[0]));
        } else {
            let chosen = least_key(self.ordered@);
            if self.ordered@.contains_key(chosen) {
                self.ordered.lemma_key_index(chosen);
            }
        }
    }

    /// A search from `src` to `dst` that has tried nothing yet.
    pub fn new<W: TileWeights<Cost = C>>(src: Vec2i, dst: Vec2i, weights: &W) -> (result: Self)
        ensures
            result.wf(weights),
            result.src == src,
            result.dst == dst,
            result.iterations == 0,
            result.next_tile() == Some(src),
            result.cache.seen() == Map::<Vec2i, Option<i32>>::empty(),
            result.data() == started(weights, src, dst),
    {
        let mut search = Search {
            src,
            dst,
            ordered: OrderedMap::new(),
            pushed: 1,
            costs: OrderedMap::new(),
            backtrack: OrderedMap::new(),
            open_set: OrderedMap::new(),
            cache: TileCache::new(),
            iterations: 0,
        };
        let start = weights.start();
        search.costs.insert(make_pos_key(src), start);
        let score = weights.score(start, src, dst);
        search.ordered.insert((score as i128) * 0x1_0000_0000_0000_0000, src);
        proof {
            search.ordered.lemma_entry(0);
        }
        search
    }

    fn relax<W: TileWeights<Cost = C>>(&mut self, weights: &W, from: Vec2i, next: Vec2i, cost: C)
        requires
            old(self).wf(weights),
            link_ok(old(self).cache.seen(), weights, from, next),
        ensures
            final(self).wf(weights),
            final(self).src == old(self).src,
            final(self).dst == old(self).dst,
            final(self).cache == old(self).cache,
            final(self).data() == relaxed(old(self).data(), weights, old(self).dst, from, next, cost),
    {
        let next_key = make_pos_key(next);
        let known = match self.costs.get(next_key) {
            Some(other) => Some(*other),
            None => None,
        };
        if weights.improves(cost, known) {
            self.backtrack.insert(next_key, Step { tile: next, prev: from });
            self.costs.insert(next_key, cost);
            if !self.open_set.contains_key(next_key) {
                self.open_set.insert(next_key, true);
                if self.pushed < u64::MAX {
                    let score = weights.score(cost, next, self.dst);
                    self.ordered.insert(
                        (score as i128) * 0x1_0000_0000_0000_0000 + self.pushed as i128,
                        next,
                    );
                    self.pushed = self.pushed + 1;
                }
            }
        }
    }

    fn try_neighbour<D: MapDb, W: TileWeights<Cost = C>>(
        &mut self,
        world: &PlayerWorld<'_, D>,
        weights: &W,
        tile_pos: Vec2i,
        weight: C,
        cost: C,
        dx: i32,
        dy: i32,
    )
        requires
            old(self).wf(weights),
            world.wf(),
            -1 <= dx <= 1,
            -1 <= dy <= 1,
            !(dx == 0 && dy == 0),
            known_walkable(old(self).cache.seen(), weights, tile_pos),
        ensures
            final(self).wf(weights),
            final(self).src == old(self).src,
            final(self).dst == old(self).dst,
            final(self).iterations == old(self).iterations,
            extends(old(self).cache.seen(), final(self).cache.seen()),
            seen_in(world, old(self).cache.seen()) ==> seen_in(world, final(self).cache.seen()),
            forall|later: Map<Vec2i, Option<i32>>| #[trigger]
                extends(final(self).cache.seen(), later) ==> final(self).data() == weighed(
                    old(self).data(),
                    later,
                    weights,
                    old(self).dst,
                    tile_pos,
                    weight,
                    cost,
                    dx as int,
                    dy as int,
                ),
    {
        let ghost seen0 = self.cache.seen();
        let stepped = may_step(world, &mut self.cache, weights, tile_pos, dx, dy);
        proof {
            lemma_steps_stay_ok(self.backtrack@, seen0, self.cache.seen(), weights);
        }
        if let Some((next, next_weight)) = stepped {
            let next_cost = weights.extend(cost, dx != 0 && dy != 0, weight, next_weight);
            self.relax(weights, tile_pos, next, next_cost);
        }
    }

    /// Tries the next tile: the search is over where none waits, where the
    /// next is the goal, where `cancelled` is set or where `max_iterations`
    /// tiles were tried; else the neighbours of the tile are weighed. What
    /// was looked up settles what the step comes to: more knowledge of
    /// the map does not change it.
    pub fn step<D: MapDb, W: TileWeights<Cost = C>>(
        &mut self,
        world: &PlayerWorld<'_, D>,
        weights: &W,
        max_iterations: usize,
        cancelled: bool,
    ) -> (result: SearchStatus)
        requires
            old(self).wf(weights),
            world.wf(),
        ensures
            final(self).wf(weights),
            final(self).src == old(self).src,
            final(self).dst == old(self).dst,
            extends(old(self).cache.seen(), final(self).cache.seen()),
            seen_in(world, old(self).cache.seen()) ==> seen_in(world, final(self).cache.seen()),
            result is Running ==> final(self).iterations == old(self).iterations + 1
                && old(self).iterations < max_iterations && !cancelled,
            result is Finished ==> {
                let path = result->Finished_0;
                &&& path.len() > 0 ==> path[0] == old(self).dst && old(self).next_tile() == Some(
                    old(self).dst,
                )
                &&& path_linked(final(self).cache.seen(), weights, old(self).src, path@)
            },
            old(self).next_tile() != Some(old(self).dst) && (cancelled || old(self).iterations
                >= max_iterations) ==> result is Finished && result->Finished_0.len() == 0,
            forall|later: Map<Vec2i, Option<i32>>| #[trigger]
                extends(final(self).cache.seen(), later) ==> match stepped(
                    old(self).data(),
                    later,
                    weights,
                    old(self).src,
                    old(self).dst,
                    max_iterations,
                    cancelled,
                ) {
                    Stepped::Running(data) => result is Running && final(self).data() == data,
                    Stepped::Finished(way) => result is Finished && result->Finished_0@ == way,
                },
    {
        proof {
            self.lemma_least();
            self.backtrack.lemma_len();
            if self.ordered.keys.len() > 0 {
                self.ordered.lemma_entry(0);
            }
        }
        let tile_pos = match self.ordered.pop_first() {
            Some((_, tile_pos)) => tile_pos,
            None => {
                return SearchStatus::Finished(Vec::new());
            },
        };
        if tile_pos == self.dst {
            let path = reconstruct_path(self.src, self.dst, &self.backtrack);
            proof {
                lemma_leads_back_is_linked(
                    self.backtrack@,
                    self.cache.seen(),
                    weights,
                    self.src,
                    path@,
                );
            }
            return SearchStatus::Finished(path);
        }
        if cancelled {
            return SearchStatus::Finished(Vec::new());
        }
        if self.iterations >= max_iterations {
            return SearchStatus::Finished(Vec::new());
        }
        self.open_set.remove(make_pos_key(tile_pos));
        let ghost popped = self.data();
        let ghost seen0 = self.cache.seen();
        let found = self.cache.lookup(world, tile_pos);
        let ghost seen1 = self.cache.seen();
        proof {
            lemma_steps_stay_ok(self.backtrack@, seen0, self.cache.seen(), weights);
        }
        let weight = match found {
            Some(tile) => weights.get(tile),
            None => None,
        };
        let cost = match self.costs.get(make_pos_key(tile_pos)) {
            Some(cost) => Some(*cost),
            None => None,
        };
        if let (Some(weight), Some(cost)) = (weight, cost) {
            let mut edge: usize = 0;
            while edge < 8
                invariant
                    edge <= 8,
                    self.wf(weights),
                    world.wf(),
                    self.src == old(self).src,
                    self.dst == old(self).dst,
                    self.iterations == old(self).iterations,
                    extends(seen1, self.cache.seen()),
                    seen_in(world, old(self).cache.seen()) ==> seen_in(world, self.cache.seen()),
                    known_walkable(seen1, weights, tile_pos),
                    forall|later: Map<Vec2i, Option<i32>>| #[trigger]
                        extends(self.cache.seen(), later) ==> self.data() == edges_weighed(
                            popped,
                            later,
                            weights,
                            self.dst,
                            tile_pos,
                            weight,
                            cost,
                            edge as int,
                        ),
                decreases 8 - edge,
            {
                let (dx, dy): (i32, i32) = if edge == 0 {
                    (-1, -1)
                } else if edge == 1 {
                    (-1, 0)
                } else if edge == 2 {
                    (-1, 1)
                } else if edge == 3 {
                    (0, -1)
                } else if edge == 4 {
                    (0, 1)
                } else if edge == 5 {
                    (1, -1)
                } else if edge == 6 {
                    (1, 0)
                } else {
                    (1, 1)
                };
                let ghost before = self.cache.seen();
                let ghost books = self.data();
                proof {
                    lemma_known_stays(seen1, before, weights, tile_pos);
                }
                self.try_neighbour(world, weights, tile_pos, weight, cost, dx, dy);
                proof {
                    lemma_extends_transitive(seen1, before, self.cache.seen());
                    let after = self.cache.seen();
                    assert(edge_shift(edge as int) == (dx as int, dy as int));
                    assert forall|later: Map<Vec2i, Option<i32>>| #[trigger]
                        extends(after, later) implies self.data() == edges_weighed(
                        popped,
                        later,
                        weights,
                        self.dst,
                        tile_pos,
                        weight,
                        cost,
                        edge + 1,
                    ) by {
                        lemma_extends_transitive(before, after, later);
                        assert(books == edges_weighed(
                            popped,
                            later,
                            weights,
                            self.dst,
                            tile_pos,
                            weight,
                            cost,
                            edge as int,
                        ));
                    }
                }
                edge += 1;
            }
        }
        proof {
            lemma_extends_transitive(seen0, seen1, self.cache.seen());
        }
        self.iterations = self.iterations + 1;
        proof {
            let after = self.cache.seen();
            assert forall|later: Map<Vec2i, Option<i32>>| #[trigger]
                extends(after, later) implies stepped(
                old(self).data(),
                later,
                weights,
                old(self).src,
                old(self).dst,
                max_iterations,
                cancelled,
            ) == Stepped::Running(self.data()) by {
                lemma_extends_transitive(seen1, after, later);
                lemma_known_stays(seen1, later, weights, tile_pos);
            }
        }
        SearchStatus::Running
    }
}

/// How long a shortcut may be: `steps` is the greatest number of tiles of
/// a run along an axis; `length` is the greatest length of a line, a
/// double as its bit pattern, which only a `LineWalker` reads.
#[derive(Debug, Clone, Copy, PartialEq, Eq, Structural)]
pub struct ShortcutLimit {
    pub steps: i64,
    pub length: u64,
}

/// Where a straight line begins: in the middle of a tile, or at a point
/// of the world given by two doubles as their bit patterns.
#[derive(Debug, Clone, Copy, PartialEq, Eq, Structural)]
pub enum LineStart {
    TileCenter(Vec2i),
    Point(Vec2f),
}

/// Straight lines across tiles, which take arithmetic on fractions.
///
/// A line is a function of its ends and of the greatest length allowed:
/// the three spec functions say which tiles it touches, and `walk` returns
/// what they say.
pub trait LineWalker: Sized {
    /// How many tiles the line from `from` to the middle of the tile `to`
    /// touches up to the first that lies farther than `max_length`.
    spec fn line_len(&self, from: LineStart, to: Vec2i, max_length: u64) -> usize;

    /// The tile number `k` that the line touches.
    spec fn line_tile(&self, from: LineStart, to: Vec2i, max_length: u64, k: usize) -> Vec2i;

    /// Whether no tile that the line touches lies farther than
    /// `max_length` from `from`.
    spec fn line_complete(&self, from: LineStart, to: Vec2i, max_length: u64) -> bool;

    /// The tiles that the straight line from `from` to the middle of the
    /// tile `to` touches, in order, up to the first that lies farther than
    /// `max_length` from `from`; and whether no tile lies that far.
    fn walk(&self, from: LineStart, to: Vec2i, max_length: u64) -> (result: (Vec<Vec2i>, bool))
        ensures
            result.0.len() == self.line_len(from, to, max_length),
            forall|k: int|
                0 <= k < result.0.len() ==> #[trigger] result.0[k] == self.line_tile(
                    from,
                    to,
                    max_length,
                    k as usize,
                ),
            result.1 == self.line_complete(from, to, max_length),
    ;
}

/// The tiles that a line touches, in order.
pub open spec fn line_of<L: LineWalker>(walker: &L, from: LineStart, to: Vec2i, max_length: u64) -> Seq<
    Vec2i,
> {
    Seq::new(
        walker.line_len(from, to, max_length) as nat,
        |k: int| walker.line_tile(from, to, max_length, k as usize),
    )
}

/// Whether the way may go straight from `a` to `b`: along an axis by a
/// clear run, else by a line between the middles of the two tiles that
/// stays within the length allowed and passes only where it may.
pub open spec fn shortcut_ok<T: TileSet, L: LineWalker>(
    seen: Map<Vec2i, Option<i32>>,
    walker: &L,
    allowed: &T,
    a: Vec2i,
    b: Vec2i,
    limit: ShortcutLimit,
) -> bool {
    if a.x == b.x || a.y == b.y {
        run_clear(
            seen,
            allowed,
            a,
            crate::vec2::signum_spec(b.x - a.x),
            crate::vec2::signum_spec(b.y - a.y),
            limit.steps,
            crate::vec2::abs_spec(b.x - a.x) + crate::vec2::abs_spec(b.y - a.y),
        )
    } else {
        line_ok(seen, walker, allowed, LineStart::TileCenter(a), b, limit.length)
    }
}

/// Whether the line from `from` to the middle of the tile `to` stays
/// within `max_length` and passes only where it may.
pub open spec fn line_ok<T: TileSet, L: LineWalker>(
    seen: Map<Vec2i, Option<i32>>,
    walker: &L,
    allowed: &T,
    from: LineStart,
    to: Vec2i,
    max_length: u64,
) -> bool {
    walker.line_complete(from, to, max_length) && walk_clear(
        seen,
        allowed,
        line_of(walker, from, to, max_length),
        walker.line_len(from, to, max_length) as int,
    )
}

/// Whether the tiles that a line touches, one after the other, let the
/// line pass: each can be entered, and where the line goes on to a tile
/// across a corner, both tiles at that corner can be entered.
pub open spec fn walk_clear<T: TileSet>(
    seen: Map<Vec2i, Option<i32>>,
    allowed: &T,
    visited: Seq<Vec2i>,
    n: int,
) -> bool
    decreases n,
{
    if n <= 0 {
        true
    } else {
        let tile = visited[n - 1];
        &&& walk_clear(seen, allowed, visited, n - 1)
        &&& known_reachable(seen, allowed, tile)
        &&& (n >= 2 ==> {
            let prev = visited[n - 2];
            &&& (tile.x != prev.x ==> known_reachable(seen, allowed, Vec2i { x: prev.x, y: tile.y }))
            &&& (tile.y != prev.y ==> known_reachable(seen, allowed, Vec2i { x: tile.x, y: prev.y }))
        })
    }
}

/// A line that may pass may still pass when more is known.
pub proof fn lemma_walk_stays_clear<T: TileSet>(
    earlier: Map<Vec2i, Option<i32>>,
    later: Map<Vec2i, Option<i32>>,
    allowed: &T,
    visited: Seq<Vec2i>,
    n: int,
)
    requires
        extends(earlier, later),
        walk_clear(earlier, allowed, visited, n),
    ensures
        walk_clear(later, allowed, visited, n),
    decreases n,
{
    if n > 0 {
        lemma_walk_stays_clear(earlier, later, allowed, visited, n - 1);
        let tile = visited[n - 1];
        assert(earlier.contains_key(tile));
        if n >= 2 {
            let prev = visited[n - 2];
            if tile.x != prev.x {
                assert(earlier.contains_key(Vec2i { x: prev.x, y: tile.y }));
            }
            if tile.y != prev.y {
                assert(earlier.contains_key(Vec2i { x: tile.x, y: prev.y }));
            }
        }
    }
}

/// Whether a run along an axis from `src` towards `dst` is clear over its
/// first `n` tiles, `src` being the first: none lies more than `max_steps`
/// tiles from `src`, and each is known and can be walked.
pub open spec fn run_clear<T: TileSet>(
    seen: Map<Vec2i, Option<i32>>,
    allowed: &T,
    src: Vec2i,
    dx: int,
    dy: int,
    max_steps: i64,
    n: int,
) -> bool
    decreases n,
{
    if n <= 0 {
        true
    } else {
        &&& run_clear(seen, allowed, src, dx, dy, max_steps, n - 1)
        &&& n - 1 <= max_steps
        &&& known_walkable(
            seen,
            allowed,
            Vec2i { x: (src.x + dx * (n - 1)) as i32, y: (src.y + dy * (n - 1)) as i32 },
        )
    }
}

impl<'a, D: MapDb> PlayerWorld<'a, D> {
    /// Whether the tiles `visited`, which a line touches one after the
    /// other, let the line pass.
    pub fn walk_is_clear<T: TileSet>(
        &self,
        cache: &mut TileCache,
        allowed_tiles: &T,
        visited: &Vec<Vec2i>,
    ) -> (result: bool)
        requires
            old(cache).wf(),
            self.wf(),
        ensures
            final(cache).wf(),
            extends(old(cache).seen(), final(cache).seen()),
            seen_in(self, old(cache).seen()) ==> seen_in(self, final(cache).seen()),
            result == walk_clear(final(cache).seen(), allowed_tiles, visited@, visited.len() as int),
            forall|later: Map<Vec2i, Option<i32>>| #[trigger]
                extends(final(cache).seen(), later) ==> result == walk_clear(
                    later,
                    allowed_tiles,
                    visited@,
                    visited.len() as int,
                ),
    {
        let mut i: usize = 0;
        while i < visited.len()
            invariant
                i <= visited.len(),
                cache.wf(),
                self.wf(),
                extends(old(cache).seen(), cache.seen()),
                seen_in(self, old(cache).seen()) ==> seen_in(self, cache.seen()),
                walk_clear(cache.seen(), allowed_tiles, visited@, i as int),
            decreases visited.len() - i,
        {
            let tile = visited[i];
            let ghost seen0 = cache.seen();
            let mut open = self.tile_is_allowed(cache, allowed_tiles, tile);
            let ghost seen1 = cache.seen();
            let ghost tile_open = open;
            let ghost mut seen2 = seen1;
            let ghost mut first_open = true;
            let ghost mut second_open = true;
            if open && i > 0 {
                let prev = visited[i - 1];
                if tile.x != prev.x {
                    open = self.tile_is_allowed(cache, allowed_tiles, Vec2i { x: prev.x, y: tile.y });
                    proof {
                        first_open = open;
                    }
                }
                proof {
                    seen2 = cache.seen();
                }
                if open && tile.y != prev.y {
                    open = self.tile_is_allowed(cache, allowed_tiles, Vec2i { x: tile.x, y: prev.y });
                    proof {
                        second_open = open;
                    }
                }
                proof {
                    lemma_extends_transitive(seen1, seen2, cache.seen());
                    if tile.x != prev.x {
                        assert(seen2.contains_key(Vec2i { x: prev.x, y: tile.y }));
                    }
                }
            }
            proof {
                lemma_extends_transitive(seen0, seen1, cache.seen());
                lemma_extends_transitive(old(cache).seen(), seen0, cache.seen());
                lemma_walk_stays_clear(seen0, cache.seen(), allowed_tiles, visited@, i as int);
                assert(seen1.contains_key(tile));
                assert(known_reachable(cache.seen(), allowed_tiles, tile) == tile_open);
            }
            if !open {
                proof {
                    let seen = cache.seen();
                    assert(!walk_clear(seen, allowed_tiles, visited@, i + 1));
                    lemma_walk_blocked(seen, allowed_tiles, visited@, i + 1, visited.len() as int);
                    assert forall|later: Map<Vec2i, Option<i32>>| #[trigger]
                        extends(seen, later) implies !walk_clear(
                        later,
                        allowed_tiles,
                        visited@,
                        visited.len() as int,
                    ) by {
                        if !tile_open {
                            lemma_known_stays(seen1, seen, allowed_tiles, tile);
                            lemma_known_stays(seen, later, allowed_tiles, tile);
                        } else {
                            let prev = visited[i - 1];
                            if !first_open {
                                let corner = Vec2i { x: prev.x, y: tile.y };
                                lemma_known_stays(seen2, seen, allowed_tiles, corner);
                                lemma_known_stays(seen, later, allowed_tiles, corner);
                            } else {
                                let corner = Vec2i { x: tile.x, y: prev.y };
                                lemma_known_stays(seen, later, allowed_tiles, corner);
                            }
                        }
                        assert(!walk_clear(later, allowed_tiles, visited@, i + 1));
                        lemma_walk_blocked(
                            later,
                            allowed_tiles,
                            visited@,
                            i + 1,
                            visited.len() as int,
                        );
                    }
                }
                return false;
            }
            i += 1;
        }
        proof {
            let seen = cache.seen();
            assert forall|later: Map<Vec2i,
                Option<i32>>| #[trigger] extends(seen, later) implies walk_clear(
                later,
                allowed_tiles,
                visited@,
                visited.len() as int,
            ) by {
                lemma_walk_stays_clear(seen, later, allowed_tiles, visited@, visited.len() as int);
            }
        }
        true
    }

    fn tile_is_allowed<T: TileSet>(&self, cache: &mut TileCache, allowed_tiles: &T, p: Vec2i) -> (result:
        bool)
        requires
            old(cache).wf(),
            self.wf(),
        ensures
            final(cache).wf(),
            extends(old(cache).seen(), final(cache).seen()),
            seen_in(self, old(cache).seen()) ==> seen_in(self, final(cache).seen()),
            final(cache).seen().contains_key(p),
            result == known_reachable(final(cache).seen(), allowed_tiles, p),
    {
        match cache.lookup(self, p) {
            Some(tile) => allowed_tiles.contains(tile),
            None => true,
        }
    }

    fn tile_is_walkable<T: TileSet>(&self, cache: &mut TileCache, allowed_tiles: &T,
        p: Vec2i) -> (result:
        bool)
        requires
            old(cache).wf(),
            self.wf(),
        ensures
            final(cache).wf(),
            extends(old(cache).seen(), final(cache).seen()),
            seen_in(self, old(cache).seen()) ==> seen_in(self, final(cache).seen()),
            final(cache).seen().contains_key(p),
            result == known_walkable(final(cache).seen(), allowed_tiles, p),
    {
        match cache.lookup(self, p) {
            Some(tile) => allowed_tiles.contains(tile),
            None => false,
        }
    }

    /// Whether the run along an axis from `src_tile_pos` to `dst_tile_pos`,
    /// which share a coordinate, is clear: every tile from the first up to
    /// but without the last lies no more than `max_steps` tiles from the
    /// first, is known and can be walked.
    pub fn is_valid_run<T: TileSet>(
        &self,
        cache: &mut TileCache,
        src_tile_pos: Vec2i,
        dst_tile_pos: Vec2i,
        allowed_tiles: &T,
        max_steps: i64,
    ) -> (result: bool)
        requires
            old(cache).wf(),
            self.wf(),
            src_tile_pos.x == dst_tile_pos.x || src_tile_pos.y == dst_tile_pos.y,
        ensures
            final(cache).wf(),
            extends(old(cache).seen(), final(cache).seen()),
            seen_in(self, old(cache).seen()) ==> seen_in(self, final(cache).seen()),
            result == run_clear(
                final(cache).seen(),
                allowed_tiles,
                src_tile_pos,
                crate::vec2::signum_spec(dst_tile_pos.x - src_tile_pos.x),
                crate::vec2::signum_spec(dst_tile_pos.y - src_tile_pos.y),
                max_steps,
                crate::vec2::abs_spec(dst_tile_pos.x - src_tile_pos.x) + crate::vec2::abs_spec(
                    dst_tile_pos.y - src_tile_pos.y,
                ),
            ),
            forall|later: Map<Vec2i, Option<i32>>| #[trigger]
                extends(final(cache).seen(), later) ==> result == run_clear(
                    later,
                    allowed_tiles,
                    src_tile_pos,
                    crate::vec2::signum_spec(dst_tile_pos.x - src_tile_pos.x),
                    crate::vec2::signum_spec(dst_tile_pos.y - src_tile_pos.y),
                    max_steps,
                    crate::vec2::abs_spec(dst_tile_pos.x - src_tile_pos.x) + crate::vec2::abs_spec(
                        dst_tile_pos.y - src_tile_pos.y,
                    ),
                ),
    {
        let wide_x: i64 = dst_tile_pos.x as i64 - src_tile_pos.x as i64;
        let wide_y: i64 = dst_tile_pos.y as i64 - src_tile_pos.y as i64;
        let dx: i64 = if wide_x > 0 { 1 } else if wide_x < 0 { -1 } else { 0 };
        let dy: i64 = if wide_y > 0 { 1 } else if wide_y < 0 { -1 } else { 0 };
        let count: i64 = (if wide_x < 0 { -wide_x } else { wide_x }) + (if wide_y < 0 { -wide_y } else { wide_y });
        let mut n: i64 = 0;
        while n < count
            invariant
                0 <= n <= count,
                cache.wf(),
                self.wf(),
                src_tile_pos.x == dst_tile_pos.x || src_tile_pos.y == dst_tile_pos.y,
                wide_x == dst_tile_pos.x - src_tile_pos.x,
                wide_y == dst_tile_pos.y - src_tile_pos.y,
                dx == crate::vec2::signum_spec(wide_x as int),
                dy == crate::vec2::signum_spec(wide_y as int),
                count == crate::vec2::abs_spec(wide_x as int) + crate::vec2::abs_spec(wide_y as int),
                extends(old(cache).seen(), cache.seen()),
                seen_in(self, old(cache).seen()) ==> seen_in(self, cache.seen()),
                run_clear(cache.seen(), allowed_tiles, src_tile_pos, dx as int, dy as int, max_steps,
                    n as int),
            decreases count - n,
        {
            let ghost seen0 = cache.seen();
            if n > max_steps {
                proof {
                    let seen = cache.seen();
                    lemma_run_blocked(
                        seen,
                        allowed_tiles,
                        src_tile_pos,
                        dx as int,
                        dy as int,
                        max_steps,
                        n + 1,
                        count as int,
                    );
                    assert forall|later: Map<Vec2i, Option<i32>>| #[trigger]
                        extends(seen, later) implies !run_clear(
                        later,
                        allowed_tiles,
                        src_tile_pos,
                        dx as int,
                        dy as int,
                        max_steps,
                        count as int,
                    ) by {
                        lemma_run_blocked(
                            later,
                            allowed_tiles,
                            src_tile_pos,
                            dx as int,
                            dy as int,
                            max_steps,
                            n + 1,
                            count as int,
                        );
                    }
                }
                return false;
            }
            assert(dx * n
                == (if dx == 0 { 0 } else if dx == 1 { n as int } else { -n })) by (nonlinear_arith)
                requires
                    -1 <= dx <= 1,
            ;
            assert(dy * n
                == (if dy == 0 { 0 } else if dy == 1 { n as int } else { -n })) by (nonlinear_arith)
                requires
                    -1 <= dy <= 1,
            ;
            let x: i64 = src_tile_pos.x as i64 + dx * n;
            let y: i64 = src_tile_pos.y as i64 + dy * n;
            let tile = Vec2i { x: x as i32, y: y as i32 };
            let open = self.tile_is_walkable(cache, allowed_tiles, tile);
            proof {
                lemma_extends_transitive(old(cache).seen(), seen0, cache.seen());
                lemma_run_stays_clear(seen0, cache.seen(), allowed_tiles, src_tile_pos, dx as int,
                    dy as int, max_steps, n as int);
            }
            if !open {
                proof {
                    let seen = cache.seen();
                    lemma_run_blocked(
                        seen,
                        allowed_tiles,
                        src_tile_pos,
                        dx as int,
                        dy as int,
                        max_steps,
                        n + 1,
                        count as int,
                    );
                    assert forall|later: Map<Vec2i, Option<i32>>| #[trigger]
                        extends(seen, later) implies !run_clear(
                        later,
                        allowed_tiles,
                        src_tile_pos,
                        dx as int,
                        dy as int,
                        max_steps,
                        count as int,
                    ) by {
                        lemma_known_stays(seen, later, allowed_tiles, tile);
                        lemma_run_blocked(
                            later,
                            allowed_tiles,
                            src_tile_pos,
                            dx as int,
                            dy as int,
                            max_steps,
                            n + 1,
                            count as int,
                        );
                    }
                }
                return false;
            }
            n += 1;
        }
        proof {
            let seen = cache.seen();
            assert forall|later: Map<Vec2i,
                Option<i32>>| #[trigger] extends(seen, later) implies run_clear(
                later,
                allowed_tiles,
                src_tile_pos,
                dx as int,
                dy as int,
                max_steps,
                count as int,
            ) by {
                lemma_run_stays_clear(
                    seen,
                    later,
                    allowed_tiles,
                    src_tile_pos,
                    dx as int,
                    dy as int,
                    max_steps,
                    count as int,
                );
            }
        }
        true
    }
}

/// A line that is blocked on its first `n` tiles is blocked on its first
/// `m`, for every `m` from `n` on.
pub proof fn lemma_walk_blocked<T: TileSet>(
    seen: Map<Vec2i, Option<i32>>,
    allowed: &T,
    visited: Seq<Vec2i>,
    n: int,
    m: int,
)
    requires
        n <= m,
        !walk_clear(seen, allowed, visited, n),
    ensures
        !walk_clear(seen, allowed, visited, m),
    decreases m - n,
{
    if n < m {
        lemma_walk_blocked(seen, allowed, visited, n, m - 1);
    }
}

/// A run that is blocked on its first `n` tiles is blocked on its first
/// `m`, for every `m` from `n` on.
pub proof fn lemma_run_blocked<T: TileSet>(
    seen: Map<Vec2i, Option<i32>>,
    allowed: &T,
    src: Vec2i,
    dx: int,
    dy: int,
    max_steps: i64,
    n: int,
    m: int,
)
    requires
        n <= m,
        !run_clear(seen, allowed, src, dx, dy, max_steps, n),
    ensures
        !run_clear(seen, allowed, src, dx, dy, max_steps, m),
    decreases m - n,
{
    if n < m {
        lemma_run_blocked(seen, allowed, src, dx, dy, max_steps, n, m - 1);
    }
}

/// A run that is clear is still clear when more is known.
pub proof fn lemma_run_stays_clear<T: TileSet>(
    earlier: Map<Vec2i, Option<i32>>,
    later: Map<Vec2i, Option<i32>>,
    allowed: &T,
    src: Vec2i,
    dx: int,
    dy: int,
    max_steps: i64,
    n: int,
)
    requires
        extends(earlier, later),
        run_clear(earlier, allowed, src, dx, dy, max_steps, n),
    ensures
        run_clear(later, allowed, src, dx, dy, max_steps, n),
    decreases n,
{
    if n > 0 {
        lemma_run_stays_clear(earlier, later, allowed, src, dx, dy, max_steps, n - 1);
        assert(earlier.contains_key(
            Vec2i { x: (src.x + dx * (n - 1)) as i32, y: (src.y + dy * (n - 1)) as i32 },
        ));
    }
}

/// Whether `t` is one of the four tiles of the square that the
/// neighbours `a` and `b` span.
pub open spec fn in_block(a: Vec2i, b: Vec2i, t: Vec2i) -> bool {
    (t.x == a.x || t.x == b.x) && (t.y == a.y || t.y == b.y)
}

/// Whether `a` and `b` touch at a corner only.
pub open spec fn diagonal_neighbours(a: Vec2i, b: Vec2i) -> bool {
    (b.x - a.x == 1 || b.x - a.x == -1) && (b.y - a.y == 1 || b.y - a.y == -1)
}

/// Whether neighbours can be joined by a shortcut of their own: a run of
/// no tile is allowed, and the line between the middles of two tiles that
/// touch at a corner is within the length allowed and touches no tile but
/// the four at that corner.
pub open spec fn joins_neighbours<L: LineWalker>(walker: &L, limit: ShortcutLimit) -> bool {
    &&& limit.steps >= 0
    &&& forall|a: Vec2i, b: Vec2i|
        #![trigger walker.line_complete(LineStart::TileCenter(a), b, limit.length)]
        diagonal_neighbours(a, b) ==> {
            &&& walker.line_complete(LineStart::TileCenter(a), b, limit.length)
            &&& forall|k: int|
                0 <= k < walker.line_len(LineStart::TileCenter(a), b, limit.length) ==> in_block(
                    a,
                    b,
                    #[trigger] walker.line_tile(
                        LineStart::TileCenter(a),
                        b,
                        limit.length,
                        k as usize,
                    ),
                )
        }
}

/// Whether each tile of the way was reached from the tile behind it by a
/// step that may be taken.
pub open spec fn chain_linked<T: TileSet>(
    seen: Map<Vec2i, Option<i32>>,
    allowed: &T,
    path: Seq<Vec2i>,
) -> bool {
    forall|i: int| 0 <= i && i + 1 < path.len()
        ==> link_ok(seen, allowed, path[i + 1], #[trigger] path[i])
}

/// A line that touches only the four tiles at a corner is clear where all
/// four can be entered.
pub proof fn lemma_block_walk_clear<T: TileSet>(
    seen: Map<Vec2i, Option<i32>>,
    allowed: &T,
    a: Vec2i,
    b: Vec2i,
    visited: Seq<Vec2i>,
    n: int,
)
    requires
        0 <= n <= visited.len(),
        forall|k: int| 0 <= k < visited.len() ==> in_block(a, b, #[trigger] visited[k]),
        known_reachable(seen, allowed, a),
        known_reachable(seen, allowed, b),
        known_reachable(seen, allowed, Vec2i { x: a.x, y: b.y }),
        known_reachable(seen, allowed, Vec2i { x: b.x, y: a.y }),
    ensures
        walk_clear(seen, allowed, visited, n),
    decreases n,
{
    if n > 0 {
        lemma_block_walk_clear(seen, allowed, a, b, visited, n - 1);
        let tile = visited[n - 1];
        assert(in_block(a, b, tile));
        assert(tile == a || tile == b || tile == (Vec2i { x: a.x, y: b.y }) || tile == (Vec2i {
            x: b.x,
            y: a.y,
        }));
        if n >= 2 {
            let prev = visited[n - 2];
            assert(in_block(a, b, prev));
            let first = Vec2i { x: prev.x, y: tile.y };
            let second = Vec2i { x: tile.x, y: prev.y };
            assert(first == a || first == b || first == (Vec2i { x: a.x, y: b.y }) || first == (
            Vec2i { x: b.x, y: a.y }));
            assert(second == a || second == b || second == (Vec2i { x: a.x, y: b.y }) || second
                == (Vec2i { x: b.x, y: a.y }));
        }
    }
}

/// Where neighbours can be joined by a shortcut of their own, a step that
/// may be taken is a shortcut.
pub proof fn lemma_link_is_shortcut<T: TileSet, L: LineWalker>(
    seen: Map<Vec2i, Option<i32>>,
    walker: &L,
    allowed: &T,
    a: Vec2i,
    b: Vec2i,
    limit: ShortcutLimit,
)
    requires
        joins_neighbours(walker, limit),
        link_ok(seen, allowed, a, b),
    ensures
        shortcut_ok(seen, walker, allowed, a, b, limit),
{
    if a.x == b.x || a.y == b.y {
        let dx = crate::vec2::signum_spec(b.x - a.x);
        let dy = crate::vec2::signum_spec(b.y - a.y);
        assert(run_clear(seen, allowed, a, dx, dy, limit.steps, 0));
        assert(Vec2i { x: (a.x + dx * 0) as i32, y: (a.y + dy * 0) as i32 } == a);
        assert(run_clear(seen, allowed, a, dx, dy, limit.steps, 1));
    } else {
        assert(diagonal_neighbours(a, b));
        let from = LineStart::TileCenter(a);
        assert(walker.line_complete(from, b, limit.length));
        let visited = line_of(walker, from, b, limit.length);
        assert forall|k: int| 0 <= k < visited.len() implies in_block(a, b, #[trigger] visited[k]) by {
            assert(in_block(a, b, walker.line_tile(from, b, limit.length, k as usize)));
        }
        lemma_block_walk_clear(seen, allowed, a, b, visited, visited.len() as int);
    }
}

/// A shortcut that may be taken may still be taken when more is known.
pub proof fn lemma_shortcut_stays_ok<T: TileSet, L: LineWalker>(
    earlier: Map<Vec2i, Option<i32>>,
    later: Map<Vec2i, Option<i32>>,
    walker: &L,
    allowed: &T,
    a: Vec2i,
    b: Vec2i,
    limit: ShortcutLimit,
)
    requires
        extends(earlier, later),
        shortcut_ok(earlier, walker, allowed, a, b, limit),
    ensures
        shortcut_ok(later, walker, allowed, a, b, limit),
{
    if a.x == b.x || a.y == b.y {
        lemma_run_stays_clear(
            earlier,
            later,
            allowed,
            a,
            crate::vec2::signum_spec(b.x - a.x),
            crate::vec2::signum_spec(b.y - a.y),
            limit.steps,
            crate::vec2::abs_spec(b.x - a.x) + crate::vec2::abs_spec(b.y - a.y),
        );
    } else {
        let from = LineStart::TileCenter(a);
        lemma_walk_stays_clear(
            earlier,
            later,
            allowed,
            line_of(walker, from, b, limit.length),
            walker.line_len(from, b, limit.length) as int,
        );
    }
}

/// Whether the way goes by shortcuts: from `start` to its first tile,
/// and from each tile to the next.
pub open spec fn goes_by_shortcuts<T: TileSet, L: LineWalker>(
    seen: Map<Vec2i, Option<i32>>,
    walker: &L,
    allowed: &T,
    start: Vec2i,
    way: Seq<Vec2i>,
    limit: ShortcutLimit,
) -> bool {
    forall|k: int|
        0 <= k < way.len() ==> shortcut_ok(
            seen,
            walker,
            allowed,
            if k == 0 {
                start
            } else {
                way[k - 1]
            },
            #[trigger] way[k],
            limit,
        )
}

/// A way that goes by shortcuts still does when more is known.
pub proof fn lemma_way_stays_ok<T: TileSet, L: LineWalker>(
    earlier: Map<Vec2i, Option<i32>>,
    later: Map<Vec2i, Option<i32>>,
    walker: &L,
    allowed: &T,
    start: Vec2i,
    way: Seq<Vec2i>,
    limit: ShortcutLimit,
)
    requires
        extends(earlier, later),
        goes_by_shortcuts(earlier, walker, allowed, start, way, limit),
    ensures
        goes_by_shortcuts(later, walker, allowed, start, way, limit),
{
    assert forall|k: int| 0 <= k < way.len() implies shortcut_ok(
        later,
        walker,
        allowed,
        if k == 0 {
            start
        } else {
            way[k - 1]
        },
        #[trigger] way[k],
        limit,
    ) by {
        lemma_shortcut_stays_ok(
            earlier,
            later,
            walker,
            allowed,
            if k == 0 {
                start
            } else {
                way[k - 1]
            },
            way[k],
            limit,
        );
    }
}

/// A chain of steps that may be taken still is one when more is known.
pub proof fn lemma_chain_stays_linked<T: TileSet>(
    earlier: Map<Vec2i, Option<i32>>,
    later: Map<Vec2i, Option<i32>>,
    allowed: &T,
    path: Seq<Vec2i>,
)
    requires
        extends(earlier, later),
        chain_linked(earlier, allowed, path),
    ensures
        chain_linked(later, allowed, path),
{
    assert forall|i: int| 0 <= i && i + 1 < path.len() implies link_ok(
        later,
        allowed,
        path[i + 1],
        #[trigger] path[i],
    ) by {
        lemma_link_stays_ok(earlier, later, allowed, path[i + 1], path[i]);
    }
}

/// A linked way is a chain of steps.
pub proof fn lemma_linked_is_chain<T: TileSet>(
    seen: Map<Vec2i, Option<i32>>,
    allowed: &T,
    src: Vec2i,
    path: Seq<Vec2i>,
)
    requires
        path_linked(seen, allowed, src, path),
    ensures
        chain_linked(seen, allowed, path),
{
    assert forall|i: int| 0 <= i && i + 1 < path.len() implies link_ok(
        seen,
        allowed,
        path[i + 1],
        #[trigger] path[i],
    ) by {
        assert(link_ok(
            seen,
            allowed,
            if i + 1 < path.len() {
                path[i + 1]
            } else {
                src
            },
            path[i],
        ));
    }
}

/// Every tile taken from a linked way can be walked.
pub proof fn lemma_thinned_way_walkable<T: TileSet>(
    earlier: Map<Vec2i, Option<i32>>,
    later: Map<Vec2i, Option<i32>>,
    allowed: &T,
    src: Vec2i,
    raw: Seq<Vec2i>,
    tiles: Seq<Vec2i>,
)
    requires
        extends(earlier, later),
        path_linked(earlier, allowed, src, raw),
        tiles == raw || taken_backwards(tiles, raw),
    ensures
        forall|k: int| 0 <= k < tiles.len() ==> known_walkable(later, allowed, #[trigger] tiles[k]),
{
    assert forall|i: int| 0 <= i < raw.len() implies known_walkable(
        later,
        allowed,
        #[trigger] raw[i],
    ) by {
        assert(link_ok(
            earlier,
            allowed,
            if i + 1 < raw.len() {
                raw[i + 1]
            } else {
                src
            },
            raw[i],
        ));
        assert(earlier.contains_key(raw[i]));
    }
    if tiles != raw {
        let picks = choose|picks: Seq<int>| picks_back(tiles, raw, picks);
        assert forall|k: int| 0 <= k < tiles.len() implies known_walkable(
            later,
            allowed,
            #[trigger] tiles[k],
        ) by {
            assert(tiles[k] == raw[picks[k]]);
        }
    }
}

/// Whether the way starts at a neighbour of `src` and goes on by
/// shortcuts from there.
pub open spec fn starts_beside<T: TileSet, L: LineWalker>(
    seen: Map<Vec2i, Option<i32>>,
    walker: &L,
    allowed: &T,
    src: Vec2i,
    way: Seq<Vec2i>,
    limit: ShortcutLimit,
) -> bool {
    exists|first: Vec2i| #[trigger]
        link_ok(seen, allowed, src, first) && goes_by_shortcuts(
            seen,
            walker,
            allowed,
            first,
            way,
            limit,
        )
}

/// A linked way thinned out starts beside the tile that the linked way
/// started from.
pub proof fn lemma_thinned_way_starts<T: TileSet, L: LineWalker>(
    earlier: Map<Vec2i, Option<i32>>,
    later: Map<Vec2i, Option<i32>>,
    walker: &L,
    allowed: &T,
    src: Vec2i,
    raw: Seq<Vec2i>,
    tiles: Seq<Vec2i>,
    limit: ShortcutLimit,
)
    requires
        extends(earlier, later),
        path_linked(earlier, allowed, src, raw),
        raw.len() > 0,
        raw.len() < 2 ==> tiles == raw,
        raw.len() >= 2 ==> goes_by_shortcuts(later, walker, allowed, raw.last(), tiles, limit),
    ensures
        starts_beside(later, walker, allowed, src, tiles, limit),
{
    let first = raw.last();
    assert(link_ok(earlier, allowed, src, raw[raw.len() - 1]));
    lemma_link_stays_ok(earlier, later, allowed, src, first);
    if raw.len() < 2 {
        assert(run_clear(later, allowed, first, 0, 0, limit.steps, 0));
        assert(shortcut_ok(later, walker, allowed, first, tiles[0], limit));
    }
    assert(link_ok(later, allowed, src, first) && goes_by_shortcuts(
        later,
        walker,
        allowed,
        first,
        tiles,
        limit,
    ));
}

/// The index of the first tile of the way, from the index `from` on and
/// before the index `last`, that the way may go straight to from `current`
/// by what `seen` holds of the map; `last` where there is none.
pub open spec fn first_straight<T: TileSet, L: LineWalker>(
    seen: Map<Vec2i, Option<i32>>,
    walker: &L,
    allowed: &T,
    path: Seq<Vec2i>,
    limit: ShortcutLimit,
    current: Vec2i,
    last: int,
    from: int,
) -> int
    decreases last - from,
{
    if from < 0 || from >= last {
        last
    } else if shortcut_ok(seen, walker, allowed, current, path[from], limit) {
        from
    } else {
        first_straight(seen, walker, allowed, path, limit, current, last, from + 1)
    }
}

/// The way thinned out from the tile `current` on, with the tiles of `path`
/// before the index `last` still to go: the tile nearest the goal that the
/// way may go straight to from `current` comes next, and the thinning goes
/// on from there; where there is none, the tile before `last` comes next
/// as it is, and `current` stays where it was.
pub open spec fn thinned<T: TileSet, L: LineWalker>(
    seen: Map<Vec2i, Option<i32>>,
    walker: &L,
    allowed: &T,
    path: Seq<Vec2i>,
    limit: ShortcutLimit,
    current: Vec2i,
    last: int,
) -> Seq<Vec2i>
    decreases last,
{
    if last <= 0 {
        Seq::empty()
    } else {
        let index = first_straight(seen, walker, allowed, path, limit, current, last, 0);
        if 0 <= index < last {
            seq![path[index]] + thinned(seen, walker, allowed, path, limit, path[index], index)
        } else {
            seq![path[last]] + thinned(seen, walker, allowed, path, limit, current, last - 1)
        }
    }
}

/// The way `path`, given goal first, thinned out from its far end, the
/// goal last; a way of less than two tiles as it is.
pub open spec fn thinned_all<T: TileSet, L: LineWalker>(
    seen: Map<Vec2i, Option<i32>>,
    walker: &L,
    allowed: &T,
    path: Seq<Vec2i>,
    limit: ShortcutLimit,
) -> Seq<Vec2i> {
    if path.len() < 2 {
        path
    } else {
        thinned(seen, walker, allowed, path, limit, path.last(), path.len() - 1)
    }
}

/// Whether what `seen` holds settles that the tile at the index `index` is
/// the first that the way may go straight to from `current`: whatever more
/// is known of the map, it is.
#[verifier::opaque]
pub open spec fn first_settled<T: TileSet, L: LineWalker>(
    seen: Map<Vec2i, Option<i32>>,
    walker: &L,
    allowed: &T,
    path: Seq<Vec2i>,
    limit: ShortcutLimit,
    current: Vec2i,
    last: int,
    index: int,
) -> bool {
    forall|later: Map<Vec2i, Option<i32>>| #[trigger]
        extends(seen, later) ==> first_straight(
            later,
            walker,
            allowed,
            path,
            limit,
            current,
            last,
            0,
        ) == index
}

/// Whether what `seen` holds settles that the thinned way begins with the
/// tiles `taken` and goes on from the tile `current`, with the tiles
/// before the index `last` still to go: whatever more is known of the
/// map, it does.
#[verifier::opaque]
pub open spec fn thinned_so_far<T: TileSet, L: LineWalker>(
    seen: Map<Vec2i, Option<i32>>,
    walker: &L,
    allowed: &T,
    path: Seq<Vec2i>,
    limit: ShortcutLimit,
    taken: Seq<Vec2i>,
    current: Vec2i,
    last: int,
) -> bool {
    forall|later: Map<Vec2i, Option<i32>>| #[trigger]
        extends(seen, later) ==> thinned(
            later,
            walker,
            allowed,
            path,
            limit,
            path.last(),
            path.len() - 1,
        ) == taken + thinned(later, walker, allowed, path, limit, current, last)
}

/// Before any tile is taken, the thinned way goes on from the far end.
pub proof fn lemma_thinning_starts<T: TileSet, L: LineWalker>(
    seen: Map<Vec2i, Option<i32>>,
    walker: &L,
    allowed: &T,
    path: Seq<Vec2i>,
    limit: ShortcutLimit,
)
    ensures
        thinned_so_far(
            seen,
            walker,
            allowed,
            path,
            limit,
            Seq::empty(),
            path.last(),
            path.len() - 1,
        ),
{
    reveal(thinned_so_far);
    assert forall|later: Map<Vec2i, Option<i32>>| #[trigger] extends(seen, later) implies thinned(
        later,
        walker,
        allowed,
        path,
        limit,
        path.last(),
        path.len() - 1,
    ) == Seq::<Vec2i>::empty() + thinned(
        later,
        walker,
        allowed,
        path,
        limit,
        path.last(),
        path.len() - 1,
    ) by {
        assert(Seq::<Vec2i>::empty() + thinned(
            later,
            walker,
            allowed,
            path,
            limit,
            path.last(),
            path.len() - 1,
        ) =~= thinned(later, walker, allowed, path, limit, path.last(), path.len() - 1));
    }
}

/// Where the thinned way is settled up to the tile `current` and the tile
/// at the index `index` is settled as the first that the way may go
/// straight to from there, the thinned way is settled one tile further.
pub proof fn lemma_thinned_goes_on<T: TileSet, L: LineWalker>(
    earlier: Map<Vec2i, Option<i32>>,
    seen: Map<Vec2i, Option<i32>>,
    walker: &L,
    allowed: &T,
    path: Seq<Vec2i>,
    limit: ShortcutLimit,
    taken: Seq<Vec2i>,
    current: Vec2i,
    last: int,
    index: int,
)
    requires
        extends(earlier, seen),
        0 < last < path.len(),
        0 <= index <= last,
        thinned_so_far(earlier, walker, allowed, path, limit, taken, current, last),
        first_settled(seen, walker, allowed, path, limit, current, last, index),
    ensures
        thinned_so_far(
            seen,
            walker,
            allowed,
            path,
            limit,
            taken.push(path[index]),
            if index == last {
                current
            } else {
                path[index]
            },
            if index == last {
                last - 1
            } else {
                index
            },
        ),
        first_straight(seen, walker, allowed, path, limit, current, last, 0) == index,
{
    reveal(thinned_so_far);
    reveal(first_settled);
    assert(extends(seen, seen));
    let next_current = if index == last {
        current
    } else {
        path[index]
    };
    let next_last = if index == last {
        last - 1
    } else {
        index
    };
    assert forall|later: Map<Vec2i, Option<i32>>| #[trigger] extends(seen, later) implies thinned(
        later,
        walker,
        allowed,
        path,
        limit,
        path.last(),
        path.len() - 1,
    ) == taken.push(path[index]) + thinned(
        later,
        walker,
        allowed,
        path,
        limit,
        next_current,
        next_last,
    ) by {
        lemma_extends_transitive(earlier, seen, later);
        let rest = thinned(later, walker, allowed, path, limit, next_current, next_last);
        assert(thinned(later, walker, allowed, path, limit, current, last) == seq![path[index]]
            + rest);
        assert(taken + (seq![path[index]] + rest) =~= taken.push(path[index]) + rest);
    }
}

/// With no tile left to go, the tiles taken are the thinned way.
pub proof fn lemma_thinning_ends<T: TileSet, L: LineWalker>(
    seen: Map<Vec2i, Option<i32>>,
    walker: &L,
    allowed: &T,
    path: Seq<Vec2i>,
    limit: ShortcutLimit,
    taken: Seq<Vec2i>,
    current: Vec2i,
)
    requires
        thinned_so_far(seen, walker, allowed, path, limit, taken, current, 0),
    ensures
        taken == thinned(seen, walker, allowed, path, limit, path.last(), path.len() - 1),
{
    reveal(thinned_so_far);
    assert(extends(seen, seen));
    assert(taken + thinned(seen, walker, allowed, path, limit, current, 0) =~= taken);
}

/// Where neighbours can be joined by a shortcut of their own, the way may
/// go straight from a tile of a chain of steps to the tile before it.
pub proof fn lemma_neighbour_is_straight<T: TileSet, L: LineWalker>(
    seen: Map<Vec2i, Option<i32>>,
    walker: &L,
    allowed: &T,
    path: Seq<Vec2i>,
    limit: ShortcutLimit,
    last: int,
)
    requires
        joins_neighbours(walker, limit),
        chain_linked(seen, allowed, path),
        0 < last < path.len(),
    ensures
        shortcut_ok(seen, walker, allowed, path[last], path[last - 1], limit),
{
    assert(link_ok(seen, allowed, path[last - 1 + 1], path[last - 1]));
    lemma_link_is_shortcut(seen, walker, allowed, path[last], path[last - 1], limit);
}

/// The first tile to go straight to is one that the way may go straight
/// to, and lies before every other such tile.
pub proof fn lemma_first_straight_found<T: TileSet, L: LineWalker>(
    seen: Map<Vec2i, Option<i32>>,
    walker: &L,
    allowed: &T,
    path: Seq<Vec2i>,
    limit: ShortcutLimit,
    current: Vec2i,
    last: int,
    from: int,
)
    requires
        0 <= from <= last,
    ensures
        ({
            let index = first_straight(seen, walker, allowed, path, limit, current, last, from);
            &&& from <= index <= last
            &&& index < last ==> shortcut_ok(seen, walker, allowed, current, path[index], limit)
            &&& forall|k: int|
                from <= k < index ==> !shortcut_ok(
                    seen,
                    walker,
                    allowed,
                    current,
                    #[trigger] path[k],
                    limit,
                )
        }),
    decreases last - from,
{
    if from < last && !shortcut_ok(seen, walker, allowed, current, path[from], limit) {
        lemma_first_straight_found(seen, walker, allowed, path, limit, current, last, from + 1);
    }
}

/// A way that goes by shortcuts and ends at `current` still goes by
/// shortcuts with a tile behind it that `current` may go straight to.
pub proof fn lemma_way_goes_on<T: TileSet, L: LineWalker>(
    seen: Map<Vec2i, Option<i32>>,
    walker: &L,
    allowed: &T,
    start: Vec2i,
    way: Seq<Vec2i>,
    current: Vec2i,
    next: Vec2i,
    limit: ShortcutLimit,
)
    requires
        goes_by_shortcuts(seen, walker, allowed, start, way, limit),
        way.len() > 0 ==> way.last() == current,
        way.len() == 0 ==> current == start,
        shortcut_ok(seen, walker, allowed, current, next, limit),
    ensures
        goes_by_shortcuts(seen, walker, allowed, start, way.push(next), limit),
{
    assert forall|k: int| 0 <= k < way.len() + 1 implies shortcut_ok(
        seen,
        walker,
        allowed,
        if k == 0 {
            start
        } else {
            way.push(next)[k - 1]
        },
        #[trigger] way.push(next)[k],
        limit,
    ) by {
        if k < way.len() {
            assert(shortcut_ok(
                seen,
                walker,
                allowed,
                if k == 0 {
                    start
                } else {
                    way[k - 1]
                },
                way[k],
                limit,
            ));
        }
    }
}

/// Where neighbours can be joined by a shortcut of their own, thinning a
/// chain of steps always finds a tile to go straight to, and the way taken
/// goes on by a shortcut to it.
pub proof fn lemma_thinning_keeps_straight<T: TileSet, L: LineWalker>(
    seen: Map<Vec2i, Option<i32>>,
    walker: &L,
    allowed: &T,
    path: Seq<Vec2i>,
    limit: ShortcutLimit,
    start: Vec2i,
    way: Seq<Vec2i>,
    last: int,
    index: int,
)
    requires
        joins_neighbours(walker, limit),
        chain_linked(seen, allowed, path),
        0 < last < path.len(),
        index == first_straight(seen, walker, allowed, path, limit, path[last], last, 0),
        goes_by_shortcuts(seen, walker, allowed, start, way, limit),
        way.len() > 0 ==> way.last() == path[last],
        way.len() == 0 ==> path[last] == start,
    ensures
        0 <= index < last,
        goes_by_shortcuts(seen, walker, allowed, start, way.push(path[index]), limit),
{
    lemma_neighbour_is_straight(seen, walker, allowed, path, limit, last);
    lemma_first_straight_found(seen, walker, allowed, path, limit, path[last], last, 0);
    if index == last {
        assert(!shortcut_ok(seen, walker, allowed, path[last], path[last - 1], limit));
    }
    lemma_way_goes_on(seen, walker, allowed, start, way, path[last], path[index], limit);
}

/// Whether `way` is a way from `src` to `dst`, the goal last, as the
/// search finds it by what `seen` holds of the map: the start alone where
/// start and goal are one tile; nothing where the goal cannot be entered
/// or no tile may be tried; else nothing, or the way that the search comes
/// to, thinned out by shortcuts. Every tile of it is known and can be
/// walked. Where neighbours can be joined by a shortcut of their own, it
/// ends at the goal and goes by shortcuts from a tile beside the start.
pub open spec fn found_way<W: TileWeights, L: LineWalker>(
    seen: Map<Vec2i, Option<i32>>,
    walker: &L,
    weights: &W,
    src: Vec2i,
    dst: Vec2i,
    limit: ShortcutLimit,
    max_iterations: usize,
    way: Seq<Vec2i>,
) -> bool {
    if src == dst {
        way == seq![dst]
    } else {
        &&& seen.contains_key(dst)
        &&& !known_reachable(seen, weights, dst) ==> way.len() == 0
        &&& max_iterations == 0 ==> way.len() == 0
        &&& forall|k: int| 0 <= k < way.len() ==> known_walkable(seen, weights, #[trigger] way[k])
        &&& way.len() > 0 ==> way == thinned_all(
            seen,
            walker,
            weights,
            run(started(weights, src, dst), seen, weights, src, dst, max_iterations),
            limit,
        )
        &&& joins_neighbours(walker, limit) && way.len() > 0 ==> {
            &&& way.last() == dst
            &&& starts_beside(seen, walker, weights, src, way, limit)
        }
    }
}

/// A way with what the search that found it has looked up.
pub struct FoundPath {
    pub tiles: Vec<Vec2i>,
    pub cache: TileCache,
}

/// Whether `picks` names, for each tile of `short`, the place in `long`
/// where that tile was taken from, no place behind the one named before
/// it.
pub open spec fn picks_back(short: Seq<Vec2i>, long: Seq<Vec2i>, picks: Seq<int>) -> bool {
    &&& picks.len() == short.len()
    &&& forall|k: int|
        0 <= k < short.len() ==> 0 <= #[trigger] picks[k] < long.len() && short[k] == long[picks[k]]
    &&& forall|j: int, k: int| 0 <= j < k < short.len() ==> picks[j] >= picks[k]
}

/// Whether `short` holds tiles of `long` in the opposite order.
pub open spec fn taken_backwards(short: Seq<Vec2i>, long: Seq<Vec2i>) -> bool {
    exists|picks: Seq<int>| picks_back(short, long, picks)
}

impl<'a, D: MapDb> PlayerWorld<'a, D> {
    /// Whether the straight line from `from` to the middle of the tile
    /// `to` stays within `max_length` and passes only where it may.
    pub fn is_valid_shortcut_by_rel_pos<T: TileSet, L: LineWalker>(
        &self,
        cache: &mut TileCache,
        from: LineStart,
        to: Vec2i,
        allowed_tiles: &T,
        max_length: u64,
        walker: &L,
    ) -> (result: bool)
        requires
            old(cache).wf(),
            self.wf(),
        ensures
            final(cache).wf(),
            extends(old(cache).seen(), final(cache).seen()),
            seen_in(self, old(cache).seen()) ==> seen_in(self, final(cache).seen()),
            result == line_ok(final(cache).seen(), walker, allowed_tiles, from, to, max_length),
            forall|later: Map<Vec2i, Option<i32>>| #[trigger]
                extends(final(cache).seen(), later) ==> result == line_ok(
                    later,
                    walker,
                    allowed_tiles,
                    from,
                    to,
                    max_length,
                ),
    {
        let (visited, complete) = walker.walk(from, to, max_length);
        proof {
            assert(visited@ =~= line_of(walker, from, to, max_length));
        }
        if !complete {
            return false;
        }
        self.walk_is_clear(cache, allowed_tiles, &visited)
    }

    /// Whether the way may go straight from `src_tile_pos` to
    /// `dst_tile_pos`: along an axis by a clear run, else by a clear line
    /// between the middles of the two tiles.
    pub fn is_valid_shortcut<T: TileSet, L: LineWalker>(
        &self,
        cache: &mut TileCache,
        src_tile_pos: Vec2i,
        dst_tile_pos: Vec2i,
        allowed_tiles: &T,
        limit: ShortcutLimit,
        walker: &L,
    ) -> (result: bool)
        requires
            old(cache).wf(),
            self.wf(),
        ensures
            final(cache).wf(),
            extends(old(cache).seen(), final(cache).seen()),
            seen_in(self, old(cache).seen()) ==> seen_in(self, final(cache).seen()),
            result == shortcut_ok(
                final(cache).seen(),
                walker,
                allowed_tiles,
                src_tile_pos,
                dst_tile_pos,
                limit,
            ),
            forall|later: Map<Vec2i, Option<i32>>| #[trigger]
                extends(final(cache).seen(), later) ==> result == shortcut_ok(
                    later,
                    walker,
                    allowed_tiles,
                    src_tile_pos,
                    dst_tile_pos,
                    limit,
                ),
    {
        if src_tile_pos.x == dst_tile_pos.x || src_tile_pos.y == dst_tile_pos.y {
            self.is_valid_run(cache, src_tile_pos, dst_tile_pos, allowed_tiles, limit.steps)
        } else {
            self.is_valid_shortcut_by_rel_pos(
                cache,
                LineStart::TileCenter(src_tile_pos),
                dst_tile_pos,
                allowed_tiles,
                limit.length,
                walker,
            )
        }
    }

    /// The index of the first tile of the way, before the index `last`,
    /// that the way may go straight to from `current`; `last` where there
    /// is none.
    pub fn find_first_straight<T: TileSet, L: LineWalker>(
        &self,
        cache: &mut TileCache,
        path: &Vec<Vec2i>,
        current: Vec2i,
        last: usize,
        allowed_tiles: &T,
        limit: ShortcutLimit,
        walker: &L,
    ) -> (result: usize)
        requires
            old(cache).wf(),
            self.wf(),
            last <= path.len(),
        ensures
            final(cache).wf(),
            extends(old(cache).seen(), final(cache).seen()),
            seen_in(self, old(cache).seen()) ==> seen_in(self, final(cache).seen()),
            result <= last,
            result == first_straight(
                final(cache).seen(),
                walker,
                allowed_tiles,
                path@,
                limit,
                current,
                last as int,
                0,
            ),
            first_settled(
                final(cache).seen(),
                walker,
                allowed_tiles,
                path@,
                limit,
                current,
                last as int,
                result as int,
            ),
    {
        let mut index: usize = 0;
        let mut found = false;
        while index < last && !found
            invariant
                cache.wf(),
                self.wf(),
                extends(old(cache).seen(), cache.seen()),
                seen_in(self, old(cache).seen()) ==> seen_in(self, cache.seen()),
                index <= last <= path.len(),
                found ==> index < last,
                forall|later: Map<Vec2i, Option<i32>>| #[trigger]
                    extends(cache.seen(), later) ==> first_straight(
                        later,
                        walker,
                        allowed_tiles,
                        path@,
                        limit,
                        current,
                        last as int,
                        0,
                    ) == if found {
                        index as int
                    } else {
                        first_straight(
                            later,
                            walker,
                            allowed_tiles,
                            path@,
                            limit,
                            current,
                            last as int,
                            index as int,
                        )
                    },
            decreases last - index + if found { 0int } else { 1int },
        {
            let ghost before = cache.seen();
            let valid = self.is_valid_shortcut(
                cache,
                current,
                path[index],
                allowed_tiles,
                limit,
                walker,
            );
            proof {
                let after = cache.seen();
                lemma_extends_transitive(old(cache).seen(), before, after);
                assert forall|later: Map<Vec2i, Option<i32>>| #[trigger]
                    extends(after, later) implies first_straight(
                    later,
                    walker,
                    allowed_tiles,
                    path@,
                    limit,
                    current,
                    last as int,
                    0,
                ) == (if valid {
                    index as int
                } else {
                    first_straight(
                        later,
                        walker,
                        allowed_tiles,
                        path@,
                        limit,
                        current,
                        last as int,
                        index + 1,
                    )
                }) by {
                    lemma_extends_transitive(before, after, later);
                }
            }
            if valid {
                found = true;
            } else {
                index += 1;
            }
        }
        proof {
            reveal(first_settled);
            assert(extends(cache.seen(), cache.seen()));
        }
        index
    }

    /// Thins out a way that is given goal first. From the far end, the
    /// tile stood on looks for the tile nearest the goal that it may go
    /// straight to, goes there and looks again; where it may go straight
    /// to none, the tile before it is taken as it is. The result reads the
    /// other way round: the goal comes last.
    ///
    /// Where neighbours can be joined by a shortcut of their own and the way
    /// given is a chain of steps, the tile stood on may always go straight
    /// to the tile before it: then the result goes by shortcuts from the
    /// far end of the way to the goal.
    pub fn shorten_reversed_tiles_path<T: TileSet, L: LineWalker>(
        &self,
        cache: &mut TileCache,
        reversed_tiles_path: Vec<Vec2i>,
        allowed_tiles: &T,
        limit: ShortcutLimit,
        walker: &L,
    ) -> (result: Vec<Vec2i>)
        requires
            old(cache).wf(),
            self.wf(),
        ensures
            final(cache).wf(),
            extends(old(cache).seen(), final(cache).seen()),
            seen_in(self, old(cache).seen()) ==> seen_in(self, final(cache).seen()),
            reversed_tiles_path.len() < 2 ==> result@ == reversed_tiles_path@,
            reversed_tiles_path.len() >= 2 ==> result.len() >= 1 && taken_backwards(
                result@,
                reversed_tiles_path@,
            ),
            reversed_tiles_path.len() >= 2 ==> result@ == thinned(
                final(cache).seen(),
                walker,
                allowed_tiles,
                reversed_tiles_path@,
                limit,
                reversed_tiles_path@.last(),
                reversed_tiles_path.len() - 1,
            ),
            reversed_tiles_path.len() >= 2 && joins_neighbours(walker, limit) && chain_linked(
                old(cache).seen(),
                allowed_tiles,
                reversed_tiles_path@,
            ) ==> result@.last() == reversed_tiles_path[0] && goes_by_shortcuts(
                final(cache).seen(),
                walker,
                allowed_tiles,
                reversed_tiles_path@.last(),
                result@,
                limit,
            ),
    {
        if reversed_tiles_path.len() < 2 {
            return reversed_tiles_path;
        }
        let mut result: Vec<Vec2i> = Vec::new();
        let mut last: usize = reversed_tiles_path.len() - 1;
        let mut current = reversed_tiles_path[last];
        let ghost mut picks: Seq<int> = Seq::empty();
        let ghost start = reversed_tiles_path@.last();
        let ghost sound = joins_neighbours(walker, limit) && chain_linked(
            old(cache).seen(),
            allowed_tiles,
            reversed_tiles_path@,
        );
        proof {
            lemma_thinning_starts(
                cache.seen(),
                walker,
                allowed_tiles,
                reversed_tiles_path@,
                limit,
            );
        }
        while last > 0
            invariant
                cache.wf(),
                self.wf(),
                extends(old(cache).seen(), cache.seen()),
                seen_in(self, old(cache).seen()) ==> seen_in(self, cache.seen()),
                last < reversed_tiles_path.len(),
                reversed_tiles_path.len() >= 2,
                start == reversed_tiles_path@.last(),
                sound == (joins_neighbours(walker, limit) && chain_linked(
                    old(cache).seen(),
                    allowed_tiles,
                    reversed_tiles_path@,
                )),
                picks_back(result@, reversed_tiles_path@, picks),
                forall|k: int| 0 <= k < picks.len() ==> #[trigger] picks[k] >= last,
                thinned_so_far(
                    cache.seen(),
                    walker,
                    allowed_tiles,
                    reversed_tiles_path@,
                    limit,
                    result@,
                    current,
                    last as int,
                ),
                last + 1 < reversed_tiles_path.len() ==> result.len() >= 1,
                sound ==> current == reversed_tiles_path[last as int],
                sound && result.len() > 0 ==> result@.last() == current,
                sound && result.len() == 0 ==> current == start,
                sound ==> goes_by_shortcuts(
                    cache.seen(),
                    walker,
                    allowed_tiles,
                    start,
                    result@,
                    limit,
                ),
            decreases last,
        {
            let ghost outer_seen = cache.seen();
            let ghost was_current = current;
            let ghost was_last = last as int;
            let ghost before_push = result@;
            let index = self.find_first_straight(
                cache,
                &reversed_tiles_path,
                current,
                last,
                allowed_tiles,
                limit,
                walker,
            );
            let ghost seen = cache.seen();
            let ghost next_current = if index == last {
                current
            } else {
                reversed_tiles_path[index as int]
            };
            let ghost next_last = if index == last {
                last - 1
            } else {
                index as int
            };
            proof {
                lemma_extends_transitive(old(cache).seen(), outer_seen, seen);
                lemma_thinned_goes_on(
                    outer_seen,
                    seen,
                    walker,
                    allowed_tiles,
                    reversed_tiles_path@,
                    limit,
                    before_push,
                    was_current,
                    was_last,
                    index as int,
                );
                if sound {
                    lemma_way_stays_ok(
                        outer_seen,
                        seen,
                        walker,
                        allowed_tiles,
                        start,
                        result@,
                        limit,
                    );
                    lemma_chain_stays_linked(
                        old(cache).seen(),
                        seen,
                        allowed_tiles,
                        reversed_tiles_path@,
                    );
                    lemma_thinning_keeps_straight(
                        seen,
                        walker,
                        allowed_tiles,
                        reversed_tiles_path@,
                        limit,
                        start,
                        before_push,
                        was_last,
                        index as int,
                    );
                }
            }
            if index == last {
                result.push(reversed_tiles_path[index]);
                proof {
                    picks = picks.push(index as int);
                }
                last -= 1;
            } else {
                current = reversed_tiles_path[index];
                last = index;
                result.push(reversed_tiles_path[last]);
                proof {
                    picks = picks.push(index as int);
                }
            }
        }
        proof {
            lemma_thinning_ends(
                cache.seen(),
                walker,
                allowed_tiles,
                reversed_tiles_path@,
                limit,
                result@,
                current,
            );
        }
        result
    }

    /// The way from `src_tile_pos` to `dst_tile_pos` that a best-first
    /// search finds: the goal first, the tile next to the start last, the
    /// start itself left out. Nothing where the goal cannot be entered,
    /// where no way is found within `max_iterations` tiles tried, or where
    /// the search is cancelled.
    pub fn find_reversed_tiles_path<W: TileWeights>(
        &self,
        src_tile_pos: Vec2i,
        dst_tile_pos: Vec2i,
        weights: &W,
        max_iterations: usize,
        cancel: &AtomicBool,
    ) -> (result: FoundPath)
        requires
            self.wf(),
        ensures
            result.cache.wf(),
            seen_in(self, result.cache.seen()),
            result.tiles.len() > 0 ==> result.tiles[0] == dst_tile_pos,
            path_linked(result.cache.seen(), weights, src_tile_pos, result.tiles@),
            result.cache.seen().contains_key(dst_tile_pos),
            !known_reachable(result.cache.seen(), weights, dst_tile_pos) ==> result.tiles.len() == 0,
            max_iterations == 0 && src_tile_pos != dst_tile_pos ==> result.tiles.len() == 0,
            result.tiles.len() > 0 ==> result.tiles@ == run(
                started(weights, src_tile_pos, dst_tile_pos),
                result.cache.seen(),
                weights,
                src_tile_pos,
                dst_tile_pos,
                max_iterations,
            ),
            result.tiles.len() > 0 ==> forall|later: Map<Vec2i, Option<i32>>| #[trigger]
                extends(result.cache.seen(), later) ==> result.tiles@ == run(
                    started(weights, src_tile_pos, dst_tile_pos),
                    later,
                    weights,
                    src_tile_pos,
                    dst_tile_pos,
                    max_iterations,
                ),
    {
        let mut search: Search<W::Cost> = Search::new(src_tile_pos, dst_tile_pos, weights);
        let ghost seen_new = search.cache.seen();
        proof {
            TileCache::lemma_nothing_seen(self);
        }
        let goal_open = is_reachable(self, &mut search.cache, weights, dst_tile_pos);
        proof {
            lemma_steps_stay_ok(search.backtrack@, seen_new, search.cache.seen(), weights);
        }
        if !goal_open {
            return FoundPath { tiles: Vec::new(), cache: search.cache };
        }
        let ghost seen_checked = search.cache.seen();
        loop
            invariant
                self.wf(),
                search.wf(weights),
                search.src == src_tile_pos,
                search.dst == dst_tile_pos,
                extends(seen_checked, search.cache.seen()),
                seen_in(self, search.cache.seen()),
                seen_checked.contains_key(dst_tile_pos),
                search.iterations == 0 ==> search.next_tile() == Some(src_tile_pos),
                search.iterations <= max_iterations,
                forall|later: Map<Vec2i, Option<i32>>| #[trigger]
                    extends(search.cache.seen(), later) ==> run(
                        started(weights, src_tile_pos, dst_tile_pos),
                        later,
                        weights,
                        src_tile_pos,
                        dst_tile_pos,
                        max_iterations,
                    ) == run(
                        search.data(),
                        later,
                        weights,
                        src_tile_pos,
                        dst_tile_pos,
                        max_iterations,
                    ),
            decreases max_iterations - search.iterations,
        {
            let cancelled = is_cancelled(cancel);
            let ghost before = search.cache.seen();
            let ghost books = search.data();
            match search.step(self, weights, max_iterations, cancelled) {
                SearchStatus::Running => {
                    proof {
                        let after = search.cache.seen();
                        lemma_extends_transitive(seen_checked, before, after);
                        assert forall|later: Map<Vec2i, Option<i32>>| #[trigger]
                            extends(after, later) implies run(
                            started(weights, src_tile_pos, dst_tile_pos),
                            later,
                            weights,
                            src_tile_pos,
                            dst_tile_pos,
                            max_iterations,
                        ) == run(
                            search.data(),
                            later,
                            weights,
                            src_tile_pos,
                            dst_tile_pos,
                            max_iterations,
                        ) by {
                            lemma_extends_transitive(before, after, later);
                            assert(stepped(
                                books,
                                later,
                                weights,
                                src_tile_pos,
                                dst_tile_pos,
                                max_iterations,
                                false,
                            ) == Stepped::Running(search.data()));
                        }
                    }
                },
                SearchStatus::Finished(tiles) => {
                    proof {
                        let after = search.cache.seen();
                        lemma_extends_transitive(seen_checked, before, after);
                        assert(extends(after, after));
                        if tiles.len() > 0 {
                            assert forall|later: Map<Vec2i, Option<i32>>| #[trigger]
                                extends(after, later) implies tiles@ == run(
                                started(weights, src_tile_pos, dst_tile_pos),
                                later,
                                weights,
                                src_tile_pos,
                                dst_tile_pos,
                                max_iterations,
                            ) by {
                                lemma_extends_transitive(before, after, later);
                                assert(stepped(
                                    books,
                                    later,
                                    weights,
                                    src_tile_pos,
                                    dst_tile_pos,
                                    max_iterations,
                                    false,
                                ) == Stepped::<W::Cost>::Finished(tiles@));
                            }
                        }
                    }
                    return FoundPath { tiles, cache: search.cache };
                },
            }
        }
    }

    /// The way from `src_tile_pos` to `dst_tile_pos`, the goal last: the
    /// start alone where start and goal are one tile, else the way that
    /// the search finds, thinned out by shortcuts.
    pub fn find_path<W: TileWeights, L: LineWalker>(
        &self,
        src_tile_pos: Vec2i,
        dst_tile_pos: Vec2i,
        weights: &W,
        limit: ShortcutLimit,
        max_iterations: usize,
        walker: &L,
        cancel: &AtomicBool,
    ) -> (result: FoundPath)
        requires
            self.wf(),
        ensures
            result.cache.wf(),
            seen_in(self, result.cache.seen()),
            found_way(
                result.cache.seen(),
                walker,
                weights,
                src_tile_pos,
                dst_tile_pos,
                limit,
                max_iterations,
                result.tiles@,
            ),
    {
        if src_tile_pos == dst_tile_pos {
            let mut tiles: Vec<Vec2i> = Vec::new();
            tiles.push(dst_tile_pos);
            proof {
                TileCache::lemma_nothing_seen(self);
            }
            return FoundPath { tiles, cache: TileCache::new() };
        }
        let found = self.find_reversed_tiles_path(
            src_tile_pos,
            dst_tile_pos,
            weights,
            max_iterations,
            cancel,
        );
        let mut cache = found.cache;
        let ghost raw = found.tiles@;
        let ghost seen_found = cache.seen();
        proof {
            lemma_linked_is_chain(seen_found, weights, src_tile_pos, raw);
        }
        let tiles = self.shorten_reversed_tiles_path(&mut cache, found.tiles, weights, limit, walker);
        proof {
            if tiles.len() > 0 {
                assert(extends(seen_found, cache.seen()));
                assert(raw == run(
                    started(weights, src_tile_pos, dst_tile_pos),
                    cache.seen(),
                    weights,
                    src_tile_pos,
                    dst_tile_pos,
                    max_iterations,
                ));
            }
        }
        proof {
            lemma_thinned_way_walkable(seen_found, cache.seen(), weights, src_tile_pos, raw, tiles@);
            if joins_neighbours(walker, limit) && tiles.len() > 0 {
                lemma_thinned_way_starts(
                    seen_found,
                    cache.seen(),
                    walker,
                    weights,
                    src_tile_pos,
                    raw,
                    tiles@,
                    limit,
                );
            }
        }
        FoundPath { tiles, cache }
    }
}

} // verus!
