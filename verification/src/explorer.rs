//! The task that walks the player to the open border of the known map.

use vstd::prelude::*;
use vstd::seq_lib::to_multiset_insert;
use core::sync::atomic::AtomicBool;
use crate::clusterization::{
    clusters_upto, get_cluster_median, make_adjacent_tiles_clusters, median_index,
};
use crate::coords::{tile_pos_to_map_pos, tile_pos_to_map_pos_spec};
use crate::geometry::{Geometry, TileIdCost};
use crate::grid::TileSet;
use crate::map_db::MapDb;
use crate::path::{extends, found_way, joins_neighbours, seen_in, ShortcutLimit, TileCache};
use crate::path_finder::{consume_path, consumed, is_rest_of};
use crate::protocol::{
    click_data, message_view, Button, Event, Message, MessageData, Modifier, Update, WorldPos,
};
use crate::task::{Task, TaskContext};
use crate::vec2::Vec2i;
use crate::world::PlayerWorld;

verus! {

/// What deep water costs: the double 1.0 as its bit pattern.
pub const DEEP_WATER_COST: u64 = 0x3FF0_0000_0000_0000;

/// What shallow water costs: the double 3.0 as its bit pattern.
pub const WATER_COST: u64 = 0x4008_0000_0000_0000;

/// How far a way may be cut short while it is searched: 25 tiles.
pub const MAX_FIND_PATH_SHORTCUT_STEPS: i64 = 25;

/// The double 25.0 as its bit pattern.
pub const MAX_FIND_PATH_SHORTCUT_LENGTH: u64 = 0x4039_0000_0000_0000;

/// How far ahead the player may be sent in one line: the double 50.0 as
/// its bit pattern.
pub const MAX_NEXT_POINT_SHORTCUT_LENGTH: u64 = 0x4049_0000_0000_0000;

/// How many tiles a search may try.
pub const MAX_ITERATIONS: usize = 10_000_000;

/// A tile with its rank.
#[derive(Debug, Clone, Copy, PartialEq, Eq, Structural)]
pub struct Ranked {
    pub tile: Vec2i,
    pub rank: i32,
}

/// Whether the ranks do not fall from one item to the next.
pub open spec fn ranks_rise(items: Seq<Ranked>) -> bool {
    forall|i: int, j: int| 0 <= i < j < items.len() ==> items[i].rank <= items[j].rank
}

/// Where an item of the rank `rank` goes among the first `n` of the sorted
/// items: behind the last that does not rank above it.
pub open spec fn place_of(sorted: Seq<Ranked>, rank: i32, n: int) -> int
    decreases n,
{
    if n <= 0 {
        0
    } else if sorted[n - 1].rank > rank {
        place_of(sorted, rank, n - 1)
    } else {
        n
    }
}

/// The first `n` items in the order of their ranks, items of one rank in
/// the order they came in.
pub open spec fn sorted_by_rank(items: Seq<Ranked>, n: int) -> Seq<Ranked>
    decreases n,
{
    if n <= 0 {
        Seq::empty()
    } else {
        let rest = sorted_by_rank(items, n - 1);
        rest.insert(place_of(rest, items[n - 1].rank, rest.len() as int), items[n - 1])
    }
}

/// The items in the order of their ranks, items of one rank in the order
/// they came in.
pub fn sort_by_rank(items: &Vec<Ranked>) -> (result: Vec<Ranked>)
    ensures
        result@ == sorted_by_rank(items@, items.len() as int),
        ranks_rise(result@),
        result@.to_multiset() == items@.to_multiset(),
{
    let mut result: Vec<Ranked> = Vec::new();
    let mut n: usize = 0;
    proof {
        assert(items@.take(0) =~= Seq::<Ranked>::empty());
    }
    while n < items.len()
        invariant
            n <= items.len(),
            ranks_rise(result@),
            result@.to_multiset() == items@.take(n as int).to_multiset(),
            result@ == sorted_by_rank(items@, n as int),
        decreases items.len() - n,
    {
        let item = items[n];
        let mut at: usize = result.len();
        while at > 0 && result[at - 1].rank > item.rank
            invariant
                at <= result.len(),
                forall|k: int| at <= k < result.len() ==> result[k].rank > item.rank,
                place_of(result@, item.rank, at as int) == place_of(
                    result@,
                    item.rank,
                    result.len() as int,
                ),
            decreases at,
        {
            at -= 1;
        }
        proof {
            assert(place_of(result@, item.rank, at as int) == at);
        }
        let ghost before = result@;
        result.insert(at, item);
        proof {
            to_multiset_insert(before, at as int, item);
            assert(items@.take(n + 1) =~= items@.take(n as int).push(item));
            vstd::seq_lib::to_multiset_build(items@.take(n as int), item);
            assert forall|i: int, j: int| 0 <= i < j < result.len() implies result[i].rank
                <= result[j].rank by {
                let oi = if i < at { i } else { i - 1 };
                let oj = if j < at { j } else { j - 1 };
                if i != at && j != at {
                    assert(before[oi].rank <= before[oj].rank);
                } else if i == at {
                    assert(before[oj].rank > item.rank);
                } else {
                    if at > 0 {
                        assert(before[at - 1].rank <= item.rank);
                        if i < at - 1 {
                            assert(before[i].rank <= before[at - 1].rank);
                        }
                    }
                }
            }
        }
        n += 1;
    }
    proof {
        assert(items@.take(items.len() as int) =~= items@);
    }
    result
}

/// Walks the player to the farthest tile on the open border of its
/// segment: `border_tiles` are the tiles still to go to, the farthest
/// last; `tile_pos_path` is the way to the last of them.
#[derive(Debug, Clone)]
pub struct Explorer {
    pub border_tiles: Vec<Vec2i>,
    pub tile_pos_path: Vec<Vec2i>,
}

/// The middle of each of the first `n` clusters, with its rank by the
/// distance from the point `from`, in the order of the clusters.
pub open spec fn ranked_middles<G: Geometry>(
    geometry: &G,
    clusters: Seq<Seq<Vec2i>>,
    from: WorldPos,
    n: int,
) -> Seq<Ranked>
    decreases n,
{
    if n <= 0 {
        Seq::empty()
    } else {
        let rest = ranked_middles(geometry, clusters, from, n - 1);
        let cluster = clusters[n - 1];
        if 0 < cluster.len() {
            let tile = cluster[median_index(cluster, cluster.len() as int)];
            rest.push(Ranked { tile, rank: geometry.rank(tile, from) })
        } else {
            rest
        }
    }
}

/// The tiles of the items, in order.
pub open spec fn tiles_of(items: Seq<Ranked>) -> Seq<Vec2i> {
    Seq::new(items.len(), |k: int| items[k].tile)
}

/// Whether `tiles` are the middles of the clusters of the border tiles
/// `border`, in the rising order of their ranks by the distance from the
/// point `from`.
pub open spec fn lists_middles<G: Geometry>(
    geometry: &G,
    border: Seq<Vec2i>,
    from: WorldPos,
    tiles: Seq<Vec2i>,
) -> bool {
    let clusters = clusters_upto(border, border.len() as int);
    let middles = ranked_middles(geometry, clusters, from, clusters.len() as int);
    tiles == tiles_of(sorted_by_rank(middles, middles.len() as int))
}

/// The costs of the tiles that are walked by water: shallow water where
/// `water` is its tile, then deep water where `deep` is its tile.
pub open spec fn water_list(water: Option<i32>, deep: Option<i32>) -> Seq<TileIdCost> {
    (match water {
        Some(id) => seq![TileIdCost { id, cost: WATER_COST }],
        None => Seq::empty(),
    }) + (match deep {
        Some(id) => seq![TileIdCost { id, cost: DEEP_WATER_COST }],
        None => Seq::empty(),
    })
}

/// Lists the costs of the tiles that are walked by water.
pub fn list_water(water: Option<i32>, deep: Option<i32>) -> (result: Vec<TileIdCost>)
    ensures
        result@ == water_list(water, deep),
{
    let mut costs: Vec<TileIdCost> = Vec::new();
    if let Some(id) = water {
        costs.push(TileIdCost { id, cost: WATER_COST });
    }
    if let Some(id) = deep {
        costs.push(TileIdCost { id, cost: DEEP_WATER_COST });
    }
    proof {
        assert(costs@ =~= water_list(water, deep));
    }
    costs
}

impl Explorer {
    pub fn new() -> (result: Self)
        ensures
            result.border_tiles@ == Seq::<Vec2i>::empty(),
            result.tile_pos_path@ == Seq::<Vec2i>::empty(),
    {
        Explorer { border_tiles: Vec::new(), tile_pos_path: Vec::new() }
    }

    /// Whether `costs` are the costs of the tiles that are walked by water
    /// in `world`: shallow water, then deep water, each where its name
    /// resolves to a tile, as the map resolves it where it knows the name.
    pub open spec fn lists_water<D: MapDb>(world: &PlayerWorld<'_, D>, costs: Seq<TileIdCost>) -> bool {
        exists|water: Option<i32>, deep: Option<i32>|
            {
                &&& #[trigger] water_list(water, deep) == costs
                &&& world.map.name_index().contains_key("gfx/tiles/water"@) ==> water == Some(
                    world.map.name_index()["gfx/tiles/water"@].id,
                )
                &&& world.map.name_index().contains_key("gfx/tiles/deep"@) ==> deep == Some(
                    world.map.name_index()["gfx/tiles/deep"@].id,
                )
            }
    }

    /// The costs of the tiles that are walked by water, for the names that
    /// resolve to a tile.
    pub fn water_costs<D: MapDb>(world: &PlayerWorld<'_, D>) -> (result: Vec<TileIdCost>)
        ensures
            Self::lists_water(world, result@),
    {
        let water = world.get_tile_id_by_name(&"gfx/tiles/water".to_owned());
        let deep = world.get_tile_id_by_name(&"gfx/tiles/deep".to_owned());
        let costs = list_water(water, deep);
        proof {
            assert(water_list(water, deep) == costs@);
        }
        costs
    }

    /// The tiles to go to: the middle of each cluster of tiles on the open
    /// border of the player's segment, in the rising order of their ranks
    /// by distance.
    pub fn find_border<D: MapDb, G: Geometry>(
        world: &PlayerWorld<'_, D>,
        geometry: &G,
        weights: &G::Weights,
    ) -> (result: Vec<Vec2i>)
        requires
            world.wf(),
        ensures
            forall|k: int|
                0 <= k < result.len() ==> world.map.border_tiles(
                    world.player_segment_id,
                    weights,
                ).contains(#[trigger] result[k]),
            lists_middles(
                geometry,
                world.map.border_tiles(world.player_segment_id, weights),
                world.player_position,
                result@,
            ),
    {
        let border_tiles = world.find_border_tiles(weights);
        let clusters = make_adjacent_tiles_clusters(&border_tiles);
        let ghost border = border_tiles@;
        let mut ranked: Vec<Ranked> = Vec::new();
        let mut i: usize = 0;
        while i < clusters.len()
            invariant
                i <= clusters.len(),
                border == border_tiles@,
                crate::clusterization::cluster_views(clusters@) == crate::clusterization::clusters_upto(
                    border,
                    border.len() as int,
                ),
                forall|k: int| 0 <= k < ranked.len() ==> border.contains((#[trigger] ranked[k]).tile),
                ranked@ == ranked_middles(
                    geometry,
                    crate::clusterization::cluster_views(clusters@),
                    world.player_position,
                    i as int,
                ),
            decreases clusters.len() - i,
        {
            proof {
                assert(crate::clusterization::cluster_views(clusters@)[i as int]
                    == clusters[i as int]@);
            }
            if let Some(tile) = get_cluster_median(&clusters[i]) {
                proof {
                    let j = choose|j: int|
                        0 <= j < clusters[i as int].len() && #[trigger] clusters[i as int][j]
                            == tile;
                    assert(crate::clusterization::cluster_views(clusters@)[i as int]
                        == clusters[i as int]@);
                    crate::clusterization::lemma_clusters_hold_tiles(
                        border,
                        border.len() as int,
                        i as int,
                        j,
                    );
                }
                ranked.push(
                    Ranked { tile, rank: geometry.distance_score(tile, world.player_position) },
                );
            }
            i += 1;
        }
        let sorted = sort_by_rank(&ranked);
        let mut result: Vec<Vec2i> = Vec::new();
        let mut k: usize = 0;
        proof {
            assert(crate::clusterization::cluster_views(clusters@).len() == clusters.len());
        }
        while k < sorted.len()
            invariant
                k <= sorted.len(),
                result.len() == k,
                forall|j: int| 0 <= j < k ==> #[trigger] result[j] == sorted[j].tile,
                sorted@.to_multiset() == ranked@.to_multiset(),
                forall|j: int| 0 <= j < ranked.len() ==> border.contains((#[trigger] ranked[j]).tile),
                forall|j: int| 0 <= j < k ==> border.contains(#[trigger] result[j]),
            decreases sorted.len() - k,
        {
            proof {
                let item = sorted[k as int];
                vstd::seq_lib::to_multiset_contains(sorted@, item);
                vstd::seq_lib::to_multiset_contains(ranked@, item);
                assert(sorted@.contains(item));
                assert(ranked@.contains(item));
                let j = choose|j: int| 0 <= j < ranked.len() && ranked@[j] == item;
                assert(border.contains(ranked[j].tile));
            }
            result.push(sorted[k].tile);
            k += 1;
        }
        proof {
            assert(result@ =~= tiles_of(sorted@));
        }
        result
    }

    /// Whether `after` and `message` are what following the way `way`
    /// comes to for an explorer that goes to the last of the border tiles
    /// `border`, by what `seen` holds of the map: what of the way the
    /// player need not walk to is dropped, and the player is sent to the
    /// first point left; with no point left nothing is said and the border
    /// tiles are forgotten.
    pub open spec fn followed<D: MapDb, G: Geometry>(
        border: Seq<Vec2i>,
        world: &PlayerWorld<'_, D>,
        seen: Map<Vec2i, Option<i32>>,
        geometry: &G,
        weights: &G::Weights,
        way: Seq<Vec2i>,
        after: &Self,
        message: Option<MessageData>,
    ) -> bool {
        &&& after.tile_pos_path@ == consumed(
            seen,
            geometry,
            weights,
            way,
            world.player_position,
            MAX_NEXT_POINT_SHORTCUT_LENGTH,
            false,
        )
        &&& after.border_tiles@ == if after.tile_pos_path.len() > 0 {
            border
        } else {
            Seq::empty()
        }
        &&& message == if after.tile_pos_path.len() > 0 {
            Some(
                click_data(
                    world.map_view_id,
                    tile_pos_to_map_pos_spec(after.tile_pos_path[0]),
                    Button::LeftClick,
                    Modifier::Unmodified,
                ),
            )
        } else {
            None
        }
    }

    /// Follows the way `way`: what of it the player need not walk to is
    /// dropped, and the player is sent to the first point left; with no
    /// point left the border tiles are forgotten.
    pub fn follow<D: MapDb, G: Geometry>(
        &mut self,
        world: &PlayerWorld<'_, D>,
        cache: &mut TileCache,
        geometry: &G,
        weights: &G::Weights,
        way: Vec<Vec2i>,
    ) -> (result: Option<Message>)
        requires
            old(cache).wf(),
            world.wf(),
        ensures
            final(cache).wf(),
            extends(old(cache).seen(), final(cache).seen()),
            seen_in(world, old(cache).seen()) ==> seen_in(world, final(cache).seen()),
            Self::followed(
                old(self).border_tiles@,
                world,
                final(cache).seen(),
                geometry,
                weights,
                way@,
                final(self),
                message_view(result),
            ),
            is_rest_of(final(self).tile_pos_path@, way@),
    {
        self.tile_pos_path = consume_path(
            world,
            cache,
            geometry,
            weights,
            &way,
            MAX_NEXT_POINT_SHORTCUT_LENGTH,
            false,
        );
        proof {
            assert(extends(cache.seen(), cache.seen()));
        }
        if self.tile_pos_path.len() > 0 {
            Some(
                Message::click(
                    world.map_view_id,
                    tile_pos_to_map_pos(self.tile_pos_path[0]),
                    Button::LeftClick,
                    Modifier::Unmodified,
                ),
            )
        } else {
            self.border_tiles = Vec::new();
            proof {
                assert(self.border_tiles@ =~= Seq::<Vec2i>::empty());
            }
            None
        }
    }

    /// Whether `kept` and `way` are what seeking a way to the border tiles
    /// `listed` comes to: the border tiles are given up from the last on
    /// until a way is found to one, and that way is `way`; where none is
    /// found no border tile is kept.
    pub open spec fn sought<D: MapDb, G: Geometry>(
        world: &PlayerWorld<'_, D>,
        geometry: &G,
        weights: &G::Weights,
        listed: Seq<Vec2i>,
        kept: Seq<Vec2i>,
        way: Seq<Vec2i>,
    ) -> bool {
        &&& kept.len() <= listed.len()
        &&& kept == listed.take(kept.len() as int)
        &&& way.len() == 0 ==> kept.len() == 0
        &&& way.len() > 0 ==> kept.len() > 0 && exists|seen: Map<Vec2i, Option<i32>>|
            seen_in(world, seen) && #[trigger] found_way(
                seen,
                geometry,
                weights,
                world.player_position.tile,
                kept.last(),
                ShortcutLimit {
                    steps: MAX_FIND_PATH_SHORTCUT_STEPS,
                    length: MAX_FIND_PATH_SHORTCUT_LENGTH,
                },
                MAX_ITERATIONS,
                way,
            )
    }

    /// Seeks a way to the last of the border tiles; a border tile to which
    /// none is found is given up, and the next is tried.
    pub fn seek<D: MapDb, G: Geometry>(
        &mut self,
        world: &PlayerWorld<'_, D>,
        geometry: &G,
        weights: &G::Weights,
        cancel: &AtomicBool,
    ) -> (result: Vec<Vec2i>)
        requires
            world.wf(),
        ensures
            final(self).tile_pos_path == old(self).tile_pos_path,
            Self::sought(
                world,
                geometry,
                weights,
                old(self).border_tiles@,
                final(self).border_tiles@,
                result@,
            ),
    {
        let ghost listed = self.border_tiles@;
        proof {
            assert(listed.take(listed.len() as int) =~= listed);
        }
        while self.border_tiles.len() > 0
            invariant
                world.wf(),
                self.tile_pos_path == old(self).tile_pos_path,
                listed == old(self).border_tiles@,
                self.border_tiles.len() <= listed.len(),
                self.border_tiles@ == listed.take(self.border_tiles.len() as int),
            decreases self.border_tiles.len(),
        {
            let dst_tile_pos = self.border_tiles[self.border_tiles.len() - 1];
            let found = world.find_path(
                world.player_position.tile,
                dst_tile_pos,
                weights,
                ShortcutLimit {
                    steps: MAX_FIND_PATH_SHORTCUT_STEPS,
                    length: MAX_FIND_PATH_SHORTCUT_LENGTH,
                },
                MAX_ITERATIONS,
                geometry,
                cancel,
            );
            if found.tiles.len() > 0 {
                proof {
                    assert(found_way(
                        found.cache.seen(),
                        geometry,
                        weights,
                        world.player_position.tile,
                        self.border_tiles@.last(),
                        ShortcutLimit {
                            steps: MAX_FIND_PATH_SHORTCUT_STEPS,
                            length: MAX_FIND_PATH_SHORTCUT_LENGTH,
                        },
                        MAX_ITERATIONS,
                        found.tiles@,
                    ));
                }
                return found.tiles;
            }
            self.border_tiles.pop();
            proof {
                assert(self.border_tiles@ =~= listed.take(self.border_tiles.len() as int));
            }
        }
        Vec::new()
    }

    /// Whether `after` and `message` are what an explorer in the state
    /// `self` comes to when it is asked in `world`: `costs` are the costs of
    /// the tiles walked by water and `weights` lets exactly those tiles be
    /// walked; `listed` are the border tiles to go to, those known or else
    /// the middles of the clusters of the open border, the farthest last;
    /// `way` is the way that is known, with all of `listed` kept, or else
    /// the way sought, with `kept` of them; and the way is followed by what
    /// `seen` holds of the map, which is only what looking up gives.
    pub open spec fn explored<D: MapDb, G: Geometry>(
        &self,
        world: &PlayerWorld<'_, D>,
        geometry: &G,
        costs: Seq<TileIdCost>,
        weights: G::Weights,
        listed: Seq<Vec2i>,
        kept: Seq<Vec2i>,
        way: Seq<Vec2i>,
        seen: Map<Vec2i, Option<i32>>,
        after: &Self,
        message: Option<MessageData>,
    ) -> bool {
        &&& Self::lists_water(world, costs)
        &&& forall|tile: i32| weights.has(tile) == crate::geometry::listed(costs, tile)
        &&& seen_in(world, seen)
        &&& if self.border_tiles.len() > 0 {
            listed == self.border_tiles@
        } else {
            lists_middles(
                geometry,
                world.map.border_tiles(world.player_segment_id, &weights),
                world.player_position,
                listed,
            )
        }
        &&& if self.tile_pos_path.len() > 0 {
            kept == listed && way == self.tile_pos_path@
        } else {
            Self::sought(world, geometry, &weights, listed, kept, way)
        }
        &&& Self::followed(kept, world, seen, geometry, &weights, way, after, message)
    }

    /// Whether an explorer in the state `self`, asked in `world`, may say
    /// `message` and be `after` from then on: what `explored` lays down for
    /// some costs of water, border tiles, way and knowledge of the map. A
    /// message sends the player to the first point of the way that is left;
    /// without one neither a way nor a border tile is left. Border tiles
    /// are only given up, the last first, and none while a way is known; a
    /// way that is known is only shortened; a way that was searched leads to
    /// a border tile that is kept, and ends there where neighbours can be
    /// joined by a shortcut of their own.
    pub open spec fn answers<D: MapDb, G: Geometry>(
        &self,
        world: &PlayerWorld<'_, D>,
        geometry: &G,
        after: &Self,
        message: Option<MessageData>,
    ) -> bool {
        &&& exists|
            costs: Seq<TileIdCost>,
            weights: G::Weights,
            listed: Seq<Vec2i>,
            kept: Seq<Vec2i>,
            way: Seq<Vec2i>,
            seen: Map<Vec2i, Option<i32>>,
        | #[trigger]
            self.explored(
                world,
                geometry,
                costs,
                weights,
                listed,
                kept,
                way,
                seen,
                after,
                message,
            )
        &&& match message {
            Some(data) => {
                &&& after.tile_pos_path.len() > 0
                &&& data == click_data(
                    world.map_view_id,
                    tile_pos_to_map_pos_spec(after.tile_pos_path[0]),
                    Button::LeftClick,
                    Modifier::Unmodified,
                )
            },
            None => after.tile_pos_path.len() == 0 && after.border_tiles.len() == 0,
        }
        &&& self.border_tiles.len() > 0 ==> after.border_tiles.len() <= self.border_tiles.len()
            && after.border_tiles@ == self.border_tiles@.take(after.border_tiles.len() as int)
        &&& self.tile_pos_path.len() > 0 ==> is_rest_of(after.tile_pos_path@, self.tile_pos_path@)
        &&& self.tile_pos_path.len() > 0 && self.border_tiles.len() > 0 && message.is_some()
            ==> after.border_tiles@ == self.border_tiles@
        &&& self.tile_pos_path.len() == 0 && message.is_some() ==> after.border_tiles.len() > 0
        &&& self.tile_pos_path.len() == 0 && message.is_some() && joins_neighbours(
            geometry,
            ShortcutLimit {
                steps: MAX_FIND_PATH_SHORTCUT_STEPS,
                length: MAX_FIND_PATH_SHORTCUT_LENGTH,
            },
        ) ==> after.tile_pos_path@.last() == after.border_tiles@.last()
    }

    /// Asks for the next message. Where no border tile is left to go to,
    /// the border is looked up: the middle of each cluster of border tiles
    /// that can be walked by water, the farthest last. A way is searched to
    /// the last of them until one is found; a tile to which there is none
    /// is given up. What of the way the player need not walk to is
    /// dropped, and the player is sent to its first point; with no way
    /// left, the border tiles are forgotten.
    #[verifier::rlimit(60)]
    pub fn next_message<D: MapDb, G: Geometry>(
        &mut self,
        world: &PlayerWorld<'_, D>,
        context: &TaskContext<'_, G>,
    ) -> (result: Option<Message>)
        requires
            world.wf(),
        ensures
            old(self).answers(world, context.geometry, final(self), message_view(result)),
    {
        let costs = Self::water_costs(world);
        let weights = context.geometry.weights(&costs);
        if self.border_tiles.len() == 0 {
            self.border_tiles = Self::find_border(world, context.geometry, &weights);
        }
        let ghost listed = self.border_tiles@;
        let way = if self.tile_pos_path.len() == 0 {
            self.seek(world, context.geometry, &weights, context.cancel)
        } else {
            let mut way: Vec<Vec2i> = Vec::new();
            core::mem::swap(&mut way, &mut self.tile_pos_path);
            way
        };
        let ghost kept = self.border_tiles@;
        let ghost taken = way@;
        let mut cache = TileCache::new();
        proof {
            TileCache::lemma_nothing_seen(world);
        }
        let message = self.follow(world, &mut cache, context.geometry, &weights, way);
        proof {
            let after = *self;
            assert(listed.take(listed.len() as int) =~= listed);
            assert(listed.take(0) =~= Seq::<Vec2i>::empty());
            assert(old(self).explored(
                world,
                context.geometry,
                costs@,
                weights,
                listed,
                kept,
                taken,
                cache.seen(),
                &after,
                message_view(message),
            ));
            if self.tile_pos_path.len() > 0 {
                let dropped = choose|dropped: int|
                    0 <= dropped <= taken.len() && self.tile_pos_path@ == #[trigger] taken.skip(
                        dropped,
                    );
                assert(self.tile_pos_path@.last() == taken.last());
            }
        }
        message
    }
}

impl Task for Explorer {
    open spec fn wf(&self) -> bool {
        true
    }

    open spec fn told(&self, map_view_id: i32, event: Event, after: &Self) -> bool {
        after.border_tiles@ == self.border_tiles@ && after.tile_pos_path@ == self.tile_pos_path@
    }

    fn name(&self) -> (result: String)
        ensures
            result@ == "Explorer"@,
    {
        "Explorer".to_owned()
    }

    fn get_next_message<D: MapDb, G: Geometry>(
        &mut self,
        world: &PlayerWorld<'_, D>,
        context: &TaskContext<'_, G>,
    ) -> (result: Option<Message>)
        ensures
            old(self).answers(world, context.geometry, final(self), message_view(result)),
    {
        self.next_message(world, context)
    }

    fn update<D: MapDb>(&mut self, world: &PlayerWorld<'_, D>, update: &Update) {
    }

    fn restore<D: MapDb>(&mut self, world: &PlayerWorld<'_, D>) {
    }
}

} // verus!
