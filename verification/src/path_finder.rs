//! The task that walks the player to the tile that was clicked with the
//! `Alt` key held.

use vstd::prelude::*;
use crate::coords::{
    map_pos_to_tile_pos, map_pos_to_tile_pos_spec, tile_pos_to_map_pos, tile_pos_to_map_pos_spec,
};
use crate::geometry::{Geometry, TileIdCost};
use crate::grid::TileSet;
use crate::map_db::MapDb;
use crate::path::{
    extends, found_way, joins_neighbours, lemma_extends_transitive, line_ok, seen_in, LineStart,
    ShortcutLimit, TileCache,
};
use crate::protocol::{
    click_data, message_view, str_equal, Button, Event, Message, MessageData, Modifier, Update,
    Value, ValueData, WorldPos,
};
use crate::task::{Task, TaskContext};
use crate::vec2::Vec2i;
use crate::world::{PlayerWorld, TileCost, WorldConfig};

verus! {

/// How far the search for a way may go, and how far ahead the player may
/// be sent in one line; `max_next_point_shortcut_length` is a double as
/// its bit pattern.
#[derive(Debug, Clone, Copy)]
pub struct PathFinderConfig {
    pub find_path_max_shortcut_length: ShortcutLimit,
    pub find_path_max_iterations: usize,
    pub max_next_point_shortcut_length: u64,
}

/// Walks the player to `destination` along `tile_pos_path`.
#[derive(Debug, Clone)]
pub struct PathFinder {
    pub destination: Option<Vec2i>,
    pub tile_pos_path: Vec<Vec2i>,
    pub config: PathFinderConfig,
}

/// Whether the name is among the names of the costs.
pub open spec fn names_tile(costs: Seq<TileCost>, name: Seq<char>) -> bool {
    exists|i: int| 0 <= i < costs.len() && (#[trigger] costs[i]).name@ == name
}

/// Whether the name `name` is among the names of `costs`.
pub fn has_tile_name(costs: &Vec<TileCost>, name: &String) -> (result: bool)
    ensures
        result == names_tile(costs@, name@),
{
    let mut i: usize = 0;
    while i < costs.len()
        invariant
            i <= costs.len(),
            forall|k: int| 0 <= k < i ==> (#[trigger] costs[k]).name@ != name@,
        decreases costs.len() - i,
    {
        if costs[i].name == *name {
            return true;
        }
        i += 1;
    }
    false
}

/// The family of tiles that the tile named `name` belongs to: the tiles
/// walked by ice where it is one of them, else the tiles walked by water
/// where it is one of them.
pub open spec fn family_of(name: Seq<char>, config: &WorldConfig) -> Option<Seq<TileCost>> {
    if names_tile(config.ice_tiles@, name) {
        Some(config.ice_tiles@)
    } else if names_tile(config.water_tiles@, name) {
        Some(config.water_tiles@)
    } else {
        None
    }
}

/// The family of tiles that the tile named `tile` belongs to: the tiles
/// walked by ice where it is one of them, else the tiles walked by water
/// where it is one of them.
pub fn get_tile_costs<'a>(tile: &String, config: &'a WorldConfig) -> (result: Option<&'a Vec<TileCost>>)
    ensures
        result.is_some() == family_of(tile@, config).is_some(),
        result.is_some() ==> result.unwrap()@ == family_of(tile@, config).unwrap(),
        names_tile(config.ice_tiles@, tile@) ==> result.is_some() && *result.unwrap()
            == config.ice_tiles,
        !names_tile(config.ice_tiles@, tile@) && names_tile(config.water_tiles@, tile@)
            ==> result.is_some() && *result.unwrap() == config.water_tiles,
        !names_tile(config.ice_tiles@, tile@) && !names_tile(config.water_tiles@, tile@)
            ==> result.is_none(),
{
    if has_tile_name(&config.ice_tiles, tile) {
        Some(&config.ice_tiles)
    } else if has_tile_name(&config.water_tiles, tile) {
        Some(&config.water_tiles)
    } else {
        None
    }
}

/// Whether the cost of `entry` is one of the first `n` costs.
pub open spec fn stems_from(costs: Seq<TileCost>, n: int, entry: TileIdCost) -> bool {
    exists|i: int| 0 <= i < n && (#[trigger] costs[i]).cost == entry.cost
}

/// Whether `ids` are costs by tile id for the costs by name `costs`: each
/// is one of those costs, and a name that the map resolves has its id
/// among them.
pub open spec fn ids_of<D: MapDb>(
    world: &PlayerWorld<'_, D>,
    costs: Seq<TileCost>,
    ids: Seq<TileIdCost>,
) -> bool {
    &&& ids.len() <= costs.len()
    &&& forall|k: int| 0 <= k < ids.len() ==> stems_from(costs, costs.len() as int, #[trigger] ids[k])
    &&& forall|i: int|
        0 <= i < costs.len() && world.map.name_index().contains_key((#[trigger] costs[i]).name@)
            ==> crate::geometry::listed(ids, world.map.name_index()[costs[i].name@].id)
}

/// The costs by tile id: for each cost whose tile name resolves to an id,
/// in order, that id with the cost.
pub fn costs_by_id<D: MapDb>(world: &PlayerWorld<'_, D>, costs: &Vec<TileCost>) -> (result: Vec<
    TileIdCost,
>)
    ensures
        ids_of(world, costs@, result@),
        result.len() <= costs.len(),
        forall|k: int|
            0 <= k < result.len() ==> stems_from(costs@, costs.len() as int, #[trigger] result[k]),
        forall|i: int|
            0 <= i < costs.len() && world.map.name_index().contains_key(
                (#[trigger] costs[i]).name@,
            ) ==> crate::geometry::listed(result@, world.map.name_index()[costs[i].name@].id),
{
    let mut result: Vec<TileIdCost> = Vec::new();
    let mut i: usize = 0;
    while i < costs.len()
        invariant
            i <= costs.len(),
            result.len() <= i,
            forall|k: int|
                0 <= k < result.len() ==> stems_from(costs@, i as int, #[trigger] result[k]),
            forall|j: int|
                0 <= j < i && world.map.name_index().contains_key((#[trigger] costs[j]).name@)
                    ==> crate::geometry::listed(
                    result@,
                    world.map.name_index()[costs[j].name@].id,
                ),
        decreases costs.len() - i,
    {
        let ghost before = result@;
        if let Some(id) = world.get_tile_id_by_name(&costs[i].name) {
            result.push(TileIdCost { id, cost: costs[i].cost });
        }
        proof {
            assert forall|k: int| 0 <= k < result.len() implies stems_from(
                costs@,
                i + 1,
                #[trigger] result[k],
            ) by {
                if k < before.len() {
                    assert(stems_from(costs@, i as int, before[k]));
                    let j = choose|j: int|
                        0 <= j < i && (#[trigger] costs[j]).cost == before[k].cost;
                    assert(costs[j].cost == result[k].cost);
                } else {
                    assert(costs[i as int].cost == result[k].cost);
                }
            }
            assert forall|j: int|
                0 <= j < i + 1 && world.map.name_index().contains_key(
                    (#[trigger] costs[j]).name@,
                ) implies crate::geometry::listed(
                result@,
                world.map.name_index()[costs[j].name@].id,
            ) by {
                let id = world.map.name_index()[costs[j].name@].id;
                if j < i {
                    let k = choose|k: int| 0 <= k < before.len() && (#[trigger] before[k]).id == id;
                    assert(result[k].id == id);
                } else {
                    assert(result[result.len() - 1].id == id);
                }
            }
        }
        i += 1;
    }
    result
}

/// Whether `rest` is what is left of `path` after some of its first
/// points were dropped.
pub open spec fn is_rest_of(rest: Seq<Vec2i>, path: Seq<Vec2i>) -> bool {
    exists|dropped: int| 0 <= dropped <= path.len() && rest == #[trigger] path.skip(dropped)
}

/// The index of the first point of the way, from `from` on, that is not
/// the tile stood on and lies far from where the player stands; the
/// length of the way where there is none.
pub open spec fn reach_end<G: Geometry>(
    geometry: &G,
    path: Seq<Vec2i>,
    from: int,
    stand: WorldPos,
    middle: bool,
) -> int
    decreases path.len() - from,
{
    if from < 0 || from >= path.len() {
        path.len() as int
    } else if path[from] != stand.tile && geometry.far(path[from], middle, stand) {
        from
    } else {
        reach_end(geometry, path, from + 1, stand, middle)
    }
}

/// The index of the last point of the way, from the index `from` on, that
/// the player may go straight to by what `seen` holds of the map: the
/// player may go on to the next point as long as the line to its middle is
/// clear.
pub open spec fn straight_end<G: Geometry>(
    seen: Map<Vec2i, Option<i32>>,
    geometry: &G,
    weights: &G::Weights,
    path: Seq<Vec2i>,
    stand: WorldPos,
    max_length: u64,
    from: int,
) -> int
    decreases path.len() - from,
{
    if from < 0 || from + 2 > path.len() {
        from
    } else if line_ok(
        seen,
        geometry,
        weights,
        LineStart::Point(stand.point),
        path[from + 1],
        max_length,
    ) {
        straight_end(seen, geometry, weights, path, stand, max_length, from + 1)
    } else {
        from
    }
}

/// What is left of the way once the points that the player need not walk
/// to are dropped, by what `seen` holds of the map: the points before the
/// last that the player may go straight to, then every first point that is
/// the tile stood on or lies within reach.
pub open spec fn consumed<G: Geometry>(
    seen: Map<Vec2i, Option<i32>>,
    geometry: &G,
    weights: &G::Weights,
    path: Seq<Vec2i>,
    stand: WorldPos,
    max_length: u64,
    middle: bool,
) -> Seq<Vec2i> {
    path.skip(
        reach_end(
            geometry,
            path,
            straight_end(seen, geometry, weights, path, stand, max_length, 0),
            stand,
            middle,
        ),
    )
}

/// The end of the reach lies within the way.
pub proof fn lemma_reach_end_within<G: Geometry>(
    geometry: &G,
    path: Seq<Vec2i>,
    from: int,
    stand: WorldPos,
    middle: bool,
)
    requires
        0 <= from <= path.len(),
    ensures
        from <= reach_end(geometry, path, from, stand, middle) <= path.len(),
    decreases path.len() - from,
{
    if from < path.len() && !(path[from] != stand.tile && geometry.far(path[from], middle, stand)) {
        lemma_reach_end_within(geometry, path, from + 1, stand, middle);
    }
}

/// Drops the points of the way that the player need not walk to: the
/// first, as long as the player can go straight to the second; then every
/// first point that lies within reach, taken by its middle where `middle`
/// is set and else by its first corner, or is the tile the player stands
/// on. What is looked up of the map is kept in `cache`, and settles what
/// is dropped: more knowledge of the map does not change it.
pub fn consume_path<D: MapDb, G: Geometry>(
    world: &PlayerWorld<'_, D>,
    cache: &mut TileCache,
    geometry: &G,
    weights: &G::Weights,
    path: &Vec<Vec2i>,
    max_next_point_shortcut_length: u64,
    middle: bool,
) -> (result: Vec<Vec2i>)
    requires
        old(cache).wf(),
        world.wf(),
    ensures
        final(cache).wf(),
        extends(old(cache).seen(), final(cache).seen()),
        seen_in(world, old(cache).seen()) ==> seen_in(world, final(cache).seen()),
        is_rest_of(result@, path@),
        forall|later: Map<Vec2i, Option<i32>>| #[trigger]
            extends(final(cache).seen(), later) ==> result@ == consumed(
                later,
                geometry,
                weights,
                path@,
                world.player_position,
                max_next_point_shortcut_length,
                middle,
            ),
{
    let mut first: usize = 0;
    let ghost stand = world.player_position;
    let mut blocked = false;
    while path.len() - first >= 2 && !blocked
        invariant
            first <= path.len(),
            path.len() >= 2 ==> first + 1 <= path.len(),
            path.len() < 2 ==> first == 0,
            cache.wf(),
            world.wf(),
            stand == world.player_position,
            extends(old(cache).seen(), cache.seen()),
            seen_in(world, old(cache).seen()) ==> seen_in(world, cache.seen()),
            forall|later: Map<Vec2i, Option<i32>>| #[trigger]
                extends(cache.seen(), later) ==> straight_end(
                    later,
                    geometry,
                    weights,
                    path@,
                    stand,
                    max_next_point_shortcut_length,
                    0,
                ) == if blocked {
                    first as int
                } else {
                    straight_end(
                        later,
                        geometry,
                        weights,
                        path@,
                        stand,
                        max_next_point_shortcut_length,
                        first as int,
                    )
                },
        decreases path.len() - first + if blocked { 0int } else { 1int },
    {
        let ghost before = cache.seen();
        let straight = world.is_valid_shortcut_by_rel_pos(
            cache,
            LineStart::Point(world.player_position.point),
            path[first + 1],
            weights,
            max_next_point_shortcut_length,
            geometry,
        );
        proof {
            let after = cache.seen();
            lemma_extends_transitive(old(cache).seen(), before, after);
            assert forall|later: Map<Vec2i, Option<i32>>| #[trigger]
                extends(after, later) implies straight_end(
                later,
                geometry,
                weights,
                path@,
                stand,
                max_next_point_shortcut_length,
                0,
            ) == (if straight {
                straight_end(
                    later,
                    geometry,
                    weights,
                    path@,
                    stand,
                    max_next_point_shortcut_length,
                    first + 1,
                )
            } else {
                first as int
            }) by {
                lemma_extends_transitive(before, after, later);
            }
        }
        if straight {
            first += 1;
        } else {
            blocked = true;
        }
    }
    let ghost went = first as int;
    proof {
        lemma_reach_end_within(geometry, path@, went, stand, middle);
    }
    let mut stop = false;
    while first < path.len() && !stop
        invariant
            went <= first <= path.len(),
            stand == world.player_position,
            reach_end(geometry, path@, first as int, stand, middle) == reach_end(
                geometry,
                path@,
                went,
                stand,
                middle,
            ),
            stop ==> first == reach_end(geometry, path@, first as int, stand, middle),
        decreases path.len() - first + if stop { 0int } else { 1int },
    {
        let tile_pos = path[first];
        if tile_pos != world.player_position.tile && geometry.tile_is_far(
            tile_pos,
            middle,
            world.player_position,
        ) {
            stop = true;
        } else {
            first += 1;
        }
    }
    proof {
        assert(first == reach_end(geometry, path@, went, stand, middle));
    }
    crate::new_character::skip_first(path, first)
}

/// The destination that a click sets: the tile of the place that was
/// clicked on the map with the left button and the `Alt` key.
pub open spec fn clicked_destination(event: Event, map_view_id: i32) -> Option<Vec2i> {
    match event {
        Event::WidgetMessage { id, msg, args } => if id == map_view_id && msg@ == "click"@
            && args@.len() >= 4 && args@[2].data() == ValueData::Int(1) && args@[3].data()
            == ValueData::Int(4) {
            match args@[1].data() {
                ValueData::Coord(map_pos) => Some(map_pos_to_tile_pos_spec(map_pos)),
                _ => None,
            }
        } else {
            None
        },
        _ => None,
    }
}

/// What is known of the family of tiles that a way is to be found in.
pub enum Family {
    /// The tile stood on or the tile at the goal is not known, or the tile
    /// stood on belongs to no family.
    Unknown,
    /// The tile at the goal is not of the family of the tile stood on.
    Other,
    /// Both tiles are of the family with these costs.
    Same(Seq<TileCost>),
}

/// The family that a way from a tile `player_tile` to a tile `dst_tile` is
/// to be found in, by the names that the map has for the two tiles.
pub open spec fn family<D: MapDb>(
    world: &PlayerWorld<'_, D>,
    player_tile: Option<i32>,
    dst_tile: Option<i32>,
) -> Family {
    match (player_tile, dst_tile) {
        (Some(from), Some(to)) => if world.map.tiles_view().contains_key(from)
            && world.map.tiles_view().contains_key(to) {
            match family_of(world.map.tiles_view()[from].name, world.config) {
                Some(costs) => if names_tile(costs, world.map.tiles_view()[to].name) {
                    Family::Same(costs)
                } else {
                    Family::Other
                },
                None => Family::Unknown,
            }
        } else {
            Family::Unknown
        },
        _ => Family::Unknown,
    }
}

/// The tile at `tile_pos` as the map holds it.
pub open spec fn held_tile<D: MapDb>(world: &PlayerWorld<'_, D>, tile_pos: Vec2i) -> Option<i32> {
    world.map.local_tile_at(world.player_segment_id, world.segment_pos(tile_pos))
}

/// Whether `tile` may be what looking up the tile at `tile_pos` gives:
/// where the map holds the place it is the tile that the map holds there.
pub open spec fn looked_up<D: MapDb>(
    world: &PlayerWorld<'_, D>,
    tile_pos: Vec2i,
    tile: Option<i32>,
) -> bool {
    world.map.holds_tile(world.player_segment_id, world.segment_pos(tile_pos)) ==> tile
        == held_tile(world, tile_pos)
}

impl PathFinder {
    pub fn new(config: PathFinderConfig) -> (result: Self)
        ensures
            result.destination.is_none(),
            result.tile_pos_path@ == Seq::<Vec2i>::empty(),
            result.config == config,
    {
        PathFinder { destination: None, tile_pos_path: Vec::new(), config }
    }

    /// Whether `after` and `message` are what following the way `way`
    /// comes to, by what `seen` holds of the map. With no way the
    /// destination is forgotten and nothing is said. Else what of the way
    /// the player need not walk to is dropped, and the player is sent to
    /// the first point left, if one is left.
    pub open spec fn followed<D: MapDb, G: Geometry>(
        &self,
        world: &PlayerWorld<'_, D>,
        seen: Map<Vec2i, Option<i32>>,
        geometry: &G,
        weights: &G::Weights,
        way: Seq<Vec2i>,
        after: &Self,
        message: Option<MessageData>,
    ) -> bool {
        &&& after.config == self.config
        &&& if way.len() == 0 {
            &&& after.destination.is_none()
            &&& after.tile_pos_path@ == Seq::<Vec2i>::empty()
            &&& message.is_none()
        } else {
            &&& after.destination == self.destination
            &&& after.tile_pos_path@ == consumed(
                seen,
                geometry,
                weights,
                way,
                world.player_position,
                self.config.max_next_point_shortcut_length,
                true,
            )
            &&& message == if after.tile_pos_path.len() > 0 {
                Some(
                    click_data(
                        world.map_view_id,
                        tile_pos_to_map_pos_spec(after.tile_pos_path[0]),
                        Button::LeftClick,
                        Modifier::Unmodified,
                    ),
                )
            } else {
                None
            }
        }
    }

    /// Follows the way `way`: with no way the destination is forgotten;
    /// else what of the way the player need not walk to is dropped, and
    /// the player is sent to the first point left.
    pub fn follow<D: MapDb, G: Geometry>(
        &mut self,
        world: &PlayerWorld<'_, D>,
        cache: &mut TileCache,
        geometry: &G,
        weights: &G::Weights,
        way: Vec<Vec2i>,
    ) -> (result: Option<Message>)
        requires
            old(cache).wf(),
            world.wf(),
        ensures
            final(cache).wf(),
            extends(old(cache).seen(), final(cache).seen()),
            seen_in(world, old(cache).seen()) ==> seen_in(world, final(cache).seen()),
            old(self).followed(
                world,
                final(cache).seen(),
                geometry,
                weights,
                way@,
                final(self),
                message_view(result),
            ),
            is_rest_of(final(self).tile_pos_path@, way@),
    {
        if way.len() == 0 {
            self.destination = None;
            self.tile_pos_path = way;
            proof {
                assert(self.tile_pos_path@ == self.tile_pos_path@.skip(0));
                assert(self.tile_pos_path@ =~= Seq::<Vec2i>::empty());
            }
            return None;
        }
        self.tile_pos_path = consume_path(
            world,
            cache,
            geometry,
            weights,
            &way,
            self.config.max_next_point_shortcut_length,
            true,
        );
        proof {
            assert(extends(cache.seen(), cache.seen()));
        }
        if self.tile_pos_path.len() > 0 {
            Some(
                Message::click(
                    world.map_view_id,
                    tile_pos_to_map_pos(self.tile_pos_path[0]),
                    Button::LeftClick,
                    Modifier::Unmodified,
                ),
            )
        } else {
            None
        }
    }

    /// Whether `after` and `message` are what walking on comes to for a
    /// path finder whose destination lies in the family `costs` of the tile
    /// stood on: `ids` are the costs of that family by tile id, `weights`
    /// lets exactly those tiles be walked, `way` is the way that is known
    /// or else the way found by what `seen_found` holds of the map, and the
    /// way is followed by what `seen` holds of it; both hold of the map
    /// only what looking up gives.
    pub open spec fn walked<D: MapDb, G: Geometry>(
        &self,
        world: &PlayerWorld<'_, D>,
        geometry: &G,
        costs: Seq<TileCost>,
        ids: Seq<TileIdCost>,
        weights: G::Weights,
        seen_found: Map<Vec2i, Option<i32>>,
        seen: Map<Vec2i, Option<i32>>,
        way: Seq<Vec2i>,
        after: &Self,
        message: Option<MessageData>,
    ) -> bool {
        &&& ids_of(world, costs, ids)
        &&& forall|tile: i32| weights.has(tile) == crate::geometry::listed(ids, tile)
        &&& seen_in(world, seen)
        &&& if self.tile_pos_path.len() > 0 {
            way == self.tile_pos_path@
        } else {
            seen_in(world, seen_found) && found_way(
                seen_found,
                geometry,
                &weights,
                world.player_position.tile,
                self.destination.unwrap(),
                self.config.find_path_max_shortcut_length,
                self.config.find_path_max_iterations,
                way,
            )
        }
        &&& self.followed(world, seen, geometry, &weights, way, after, message)
    }

    /// Walking on in the family of the tile stood on is setting out in
    /// that family.
    pub proof fn lemma_walked_sets_out<D: MapDb, G: Geometry>(
        &self,
        world: &PlayerWorld<'_, D>,
        geometry: &G,
        costs: Seq<TileCost>,
        ids: Seq<TileIdCost>,
        weights: G::Weights,
        seen_found: Map<Vec2i, Option<i32>>,
        seen: Map<Vec2i, Option<i32>>,
        way: Seq<Vec2i>,
        after: &Self,
        message: Option<MessageData>,
    )
        requires
            self.walked(
                world,
                geometry,
                costs,
                ids,
                weights,
                seen_found,
                seen,
                way,
                after,
                message,
            ),
        ensures
            self.set_out(world, geometry, Family::Same(costs), after, message),
    {
        assert(exists|
            ids: Seq<TileIdCost>,
            weights: G::Weights,
            seen_found: Map<Vec2i, Option<i32>>,
            seen: Map<Vec2i, Option<i32>>,
            way: Seq<Vec2i>,
        | #[trigger]
            self.walked(
                world,
                geometry,
                costs,
                ids,
                weights,
                seen_found,
                seen,
                way,
                after,
                message,
            ));
        assert(Family::Same(costs)->Same_0 == costs);
    }

    /// Whether `after` and `message` are what a path finder in the state
    /// `self` comes to when it is asked in `world`, where `player_tile` is
    /// the tile stood on and `dst_tile` the tile at the destination.
    /// Without a destination it says nothing and stays as it is. At the
    /// destination it says that it is done and forgets the destination.
    /// Where the family of the tile stood on is not known it says nothing
    /// and stays as it is. Where the destination lies in another family it
    /// forgets the destination. Else it walks on.
    pub open spec fn answers_by<D: MapDb, G: Geometry>(
        &self,
        world: &PlayerWorld<'_, D>,
        geometry: &G,
        player_tile: Option<i32>,
        dst_tile: Option<i32>,
        after: &Self,
        message: Option<MessageData>,
    ) -> bool {
        &&& after.config == self.config
        &&& match self.destination {
            None => message.is_none() && after.destination.is_none() && after.tile_pos_path@
                == self.tile_pos_path@,
            Some(destination) => if destination == world.player_position.tile {
                &&& message == Some(MessageData::Done { task: "PathFinder"@ })
                &&& after.destination.is_none()
                &&& after.tile_pos_path@ == self.tile_pos_path@
            } else {
                self.set_out(world, geometry, family(world, player_tile, dst_tile), after, message)
            },
        }
    }

    /// Whether `after` and `message` are what a path finder that is not at
    /// its destination comes to, by the family that the way is to be found
    /// in.
    pub open spec fn set_out<D: MapDb, G: Geometry>(
        &self,
        world: &PlayerWorld<'_, D>,
        geometry: &G,
        family: Family,
        after: &Self,
        message: Option<MessageData>,
    ) -> bool {
        match family {
            Family::Unknown => message.is_none() && after.destination == self.destination
                && after.tile_pos_path@ == self.tile_pos_path@,
            Family::Other => message.is_none() && after.destination.is_none()
                && after.tile_pos_path@ == self.tile_pos_path@,
            Family::Same(costs) => exists|
                ids: Seq<TileIdCost>,
                weights: G::Weights,
                seen_found: Map<Vec2i, Option<i32>>,
                seen: Map<Vec2i, Option<i32>>,
                way: Seq<Vec2i>,
            | #[trigger]
                self.walked(
                    world,
                    geometry,
                    costs,
                    ids,
                    weights,
                    seen_found,
                    seen,
                    way,
                    after,
                    message,
                ),
        }
    }

    /// Whether a path finder in the state `self`, asked in `world`, may
    /// say `message` and be `after` from then on: what `answers_by` lays
    /// down for the tile stood on and the tile at the destination, which
    /// are the tiles that the map holds there where it holds them. A
    /// message sends the player to the first point of the way that is left;
    /// a way that is known is only shortened; a way that is searched ends
    /// at the destination, where neighbours can be joined by a shortcut of
    /// their own.
    pub open spec fn answers<D: MapDb, G: Geometry>(
        &self,
        world: &PlayerWorld<'_, D>,
        geometry: &G,
        after: &Self,
        message: Option<MessageData>,
    ) -> bool {
        &&& exists|player_tile: Option<i32>, dst_tile: Option<i32>|
            {
                &&& #[trigger] self.answers_by(
                    world,
                    geometry,
                    player_tile,
                    dst_tile,
                    after,
                    message,
                )
                &&& looked_up(world, world.player_position.tile, player_tile)
                &&& self.destination.is_some() ==> looked_up(
                    world,
                    self.destination.unwrap(),
                    dst_tile,
                )
            }
        &&& message.is_some() && self.destination != Some(world.player_position.tile)
            ==> after.tile_pos_path.len() > 0 && message.unwrap() == click_data(
            world.map_view_id,
            tile_pos_to_map_pos_spec(after.tile_pos_path[0]),
            Button::LeftClick,
            Modifier::Unmodified,
        )
        &&& self.tile_pos_path.len() > 0 ==> is_rest_of(after.tile_pos_path@, self.tile_pos_path@)
        &&& self.tile_pos_path.len() == 0 && message.is_some() && self.destination != Some(
            world.player_position.tile,
        ) && joins_neighbours(geometry, self.config.find_path_max_shortcut_length)
            ==> after.tile_pos_path@.last() == self.destination.unwrap()
    }

    /// Answers for the tile stood on and the tile at the destination as
    /// they were looked up.
    #[verifier::rlimit(60)]
    pub fn answer_by<D: MapDb, G: Geometry>(
        &mut self,
        world: &PlayerWorld<'_, D>,
        context: &TaskContext<'_, G>,
        player_tile: Option<i32>,
        dst_tile: Option<i32>,
    ) -> (result: Option<Message>)
        requires
            world.wf(),
        ensures
            old(self).answers_by(
                world,
                context.geometry,
                player_tile,
                dst_tile,
                final(self),
                message_view(result),
            ),
            result.is_some() && old(self).destination != Some(world.player_position.tile)
                ==> final(self).tile_pos_path.len() > 0 && result.unwrap()@ == click_data(
                world.map_view_id,
                tile_pos_to_map_pos_spec(final(self).tile_pos_path[0]),
                Button::LeftClick,
                Modifier::Unmodified,
            ),
            old(self).tile_pos_path.len() > 0 ==> is_rest_of(
                final(self).tile_pos_path@,
                old(self).tile_pos_path@,
            ),
            old(self).tile_pos_path.len() == 0 && result.is_some() && old(self).destination
                != Some(world.player_position.tile) && joins_neighbours(
                context.geometry,
                old(self).config.find_path_max_shortcut_length,
            ) ==> final(self).tile_pos_path@.last() == old(self).destination.unwrap(),
    {
        proof {
            assert(self.tile_pos_path@ == self.tile_pos_path@.skip(0));
        }
        let dst_tile_pos = match self.destination {
            Some(destination) => destination,
            None => return None,
        };
        let src_tile_pos = world.player_position.tile;
        if dst_tile_pos == src_tile_pos {
            self.destination = None;
            return Some(Message::done("PathFinder"));
        }
        let player_tile = match player_tile {
            Some(tile) => tile,
            None => return None,
        };
        let dst_tile = match dst_tile {
            Some(tile) => tile,
            None => return None,
        };
        let player_tile_name = match world.get_tile_by_id(player_tile) {
            Some(tile) => &tile.name,
            None => return None,
        };
        let dst_tile_name = match world.get_tile_by_id(dst_tile) {
            Some(tile) => &tile.name,
            None => return None,
        };
        let tile_costs = match get_tile_costs(player_tile_name, world.config) {
            Some(costs) => costs,
            None => return None,
        };
        if !has_tile_name(tile_costs, dst_tile_name) {
            self.destination = None;
            return None;
        }
        let ids = costs_by_id(world, tile_costs);
        let weights = context.geometry.weights(&ids);
        let mut cache = TileCache::new();
        proof {
            TileCache::lemma_nothing_seen(world);
        }
        let way = if self.tile_pos_path.len() == 0 {
            let found = world.find_path(
                src_tile_pos,
                dst_tile_pos,
                &weights,
                self.config.find_path_max_shortcut_length,
                self.config.find_path_max_iterations,
                context.geometry,
                context.cancel,
            );
            cache = found.cache;
            found.tiles
        } else {
            let mut way: Vec<Vec2i> = Vec::new();
            core::mem::swap(&mut way, &mut self.tile_pos_path);
            way
        };
        let ghost seen_found = cache.seen();
        let ghost taken = way@;
        let ghost start = *self;
        let message = self.follow(world, &mut cache, context.geometry, &weights, way);
        proof {
            let after = *self;
            assert(start.config == old(self).config && start.destination == old(self).destination);
            assert(family(world, Some(player_tile), Some(dst_tile)) == Family::Same(tile_costs@));
            assert(old(self).followed(
                world,
                cache.seen(),
                context.geometry,
                &weights,
                taken,
                &after,
                message_view(message),
            ));
            assert(old(self).walked(
                world,
                context.geometry,
                tile_costs@,
                ids@,
                weights,
                seen_found,
                cache.seen(),
                taken,
                &after,
                message_view(message),
            ));
            old(self).lemma_walked_sets_out(
                world,
                context.geometry,
                tile_costs@,
                ids@,
                weights,
                seen_found,
                cache.seen(),
                taken,
                &after,
                message_view(message),
            );
            if taken.len() > 0 && self.tile_pos_path.len() > 0 {
                let dropped = choose|dropped: int|
                    0 <= dropped <= taken.len() && self.tile_pos_path@ == #[trigger] taken.skip(
                        dropped,
                    );
                assert(self.tile_pos_path@.last() == taken.last());
            }
        }
        message
    }

    /// Asks for the next message. Without a destination there is none.
    /// At the destination the task is done and forgets it. Else the way
    /// is searched, where none is known, by the family of tiles that the
    /// player stands on; what of it the player need not walk to is
    /// dropped, and the player is sent to its first point.
    pub fn next_message<D: MapDb, G: Geometry>(
        &mut self,
        world: &PlayerWorld<'_, D>,
        context: &TaskContext<'_, G>,
    ) -> (result: Option<Message>)
        requires
            world.wf(),
        ensures
            old(self).answers(world, context.geometry, final(self), message_view(result)),
    {
        let src_tile_pos = world.player_position.tile;
        let mut player_tile: Option<i32> = None;
        let mut dst_tile: Option<i32> = None;
        let ghost mut seen_player = held_tile(world, src_tile_pos);
        let ghost mut seen_dst = None::<i32>;
        if let Some(dst_tile_pos) = self.destination {
            proof {
                seen_dst = held_tile(world, dst_tile_pos);
            }
            if dst_tile_pos != src_tile_pos {
                player_tile = world.get_tile(src_tile_pos);
                proof {
                    seen_player = player_tile;
                }
                if player_tile.is_some() {
                    dst_tile = world.get_tile(dst_tile_pos);
                    proof {
                        seen_dst = dst_tile;
                    }
                }
            }
        }
        let message = self.answer_by(world, context, player_tile, dst_tile);
        proof {
            assert(old(self).answers_by(
                world,
                context.geometry,
                seen_player,
                seen_dst,
                self,
                message_view(message),
            ));
        }
        message
    }

    /// Whether `after` is `self` once it took note of `event`: a
    /// click on the map with the `Alt` key held sets the new destination,
    /// and the way to the old one is forgotten.
    pub open spec fn noted(&self, map_view_id: i32, event: Event, after: &Self) -> bool {
        &&& after.config == self.config
        &&& match clicked_destination(event, map_view_id) {
            Some(destination) => after.destination == Some(destination) && after.tile_pos_path@
                == Seq::<Vec2i>::empty(),
            None => after.destination == self.destination && after.tile_pos_path@
                == self.tile_pos_path@,
        }
    }

    /// Takes note of an event.
    pub fn on_event(&mut self, map_view_id: i32, event: &Event)
        ensures
            old(self).noted(map_view_id, *event, final(self)),
    {
        if let Event::WidgetMessage { id, msg, args } = event {
            if *id == map_view_id && str_equal(msg.as_str(), "click") && args.len() >= 4 {
                if args[2].is_int(Button::LeftClick.code()) && args[3].is_int(Modifier::Alt.code()) {
                    if let Value::Coord { value } = &args[1] {
                        self.destination = Some(map_pos_to_tile_pos(*value));
                        self.tile_pos_path = Vec::new();
                    }
                }
            }
        }
    }
}

impl Task for PathFinder {
    open spec fn wf(&self) -> bool {
        true
    }

    open spec fn told(&self, map_view_id: i32, event: Event, after: &Self) -> bool {
        self.noted(map_view_id, event, after)
    }

    fn name(&self) -> (result: String)
        ensures
            result@ == "PathFinder"@,
    {
        "PathFinder".to_owned()
    }

    fn get_next_message<D: MapDb, G: Geometry>(
        &mut self,
        world: &PlayerWorld<'_, D>,
        context: &TaskContext<'_, G>,
    ) -> (result: Option<Message>)
        ensures
            old(self).answers(world, context.geometry, final(self), message_view(result)),
    {
        self.next_message(world, context)
    }

    fn update<D: MapDb>(&mut self, world: &PlayerWorld<'_, D>, update: &Update) {
        self.on_event(world.map_view_id, &update.event);
    }

    fn restore<D: MapDb>(&mut self, world: &PlayerWorld<'_, D>) {
    }
}

} // verus!
