//! The world of one session: its map and its objects, brought up to date
//! event by event, and the view of it from where the player stands.

use vstd::prelude::*;
use crate::coords::{tile_pos_to_grid_pos, tile_pos_to_grid_pos_spec};
use crate::grid::{Grid, GridData, GridNeighbour, Tile, TileData, TileSet};
use crate::map::{
    grids_updated, grids_with, name_index_with, supersedes, wrapping_tile_pos, MapData, WorldMap,
};
use crate::map_db::MapDb;
use crate::objects::{Object, ObjectData, Objects, ObjectsData};
use crate::ordered_map::OrderedMap;
use crate::player::{Item, Player, PlayerEquipment, Resource, Widget};
use crate::protocol::{Event, MapGrid, Update, WorldPos};
use crate::vec2::Vec2i;

verus! {

/// What walking on a tile costs. `cost` is a double as its bit pattern.
#[derive(Debug, Clone)]
pub struct TileCost {
    pub name: String,
    pub cost: u64,
}

/// The tiles that can be walked by water and by ice, and how often a
/// search reports on itself.
#[derive(Debug, Clone)]
pub struct WorldConfig {
    pub water_tiles: Vec<TileCost>,
    pub ice_tiles: Vec<TileCost>,
    pub report_iterations: usize,
}

/// The world of a snapshot.
#[derive(Debug, Clone, PartialEq)]
pub struct WorldData {
    pub revision: u64,
    pub objects: ObjectsData,
    pub map: MapData,
}

/// The world of one session. `revision` counts the events that changed it.
pub struct World<D: MapDb> {
    pub revision: u64,
    pub objects: Objects,
    pub map: WorldMap<D>,
    pub config: WorldConfig,
}

/// A counter one greater, held at the greatest value.
pub open spec fn next_count(count: u64) -> u64 {
    if count < u64::MAX {
        (count + 1) as u64
    } else {
        count
    }
}

/// The grid that the map stores for a grid event: a known grid keeps its
/// segment and counts one revision more; a new grid starts revision 1 in
/// a segment named after itself.
pub open spec fn grid_of_event(grids: Map<i64, GridData>, grid: MapGrid) -> GridData {
    if grids.contains_key(grid.id) {
        GridData {
            id: grid.id,
            segment_id: grids[grid.id].segment_id,
            revision: crate::map::next_revision(grids[grid.id].revision),
            position: grid.position,
            heights: grid.heights@,
            tiles: grid.tiles@,
        }
    } else {
        GridData {
            id: grid.id,
            segment_id: grid.id,
            revision: 1,
            position: grid.position,
            heights: grid.heights@,
            tiles: grid.tiles@,
        }
    }
}

impl<D: MapDb> World<D> {
    /// Whether map and objects are well formed.
    pub open spec fn wf(&self) -> bool {
        self.map.wf() && self.objects.wf()
    }

    /// The grids after a grid event: a known grid is updated, a new one is
    /// added with the hints.
    pub open spec fn grids_after(&self, grid: MapGrid, neighbours: Seq<GridNeighbour>) -> Map<
        i64,
        GridData,
    > {
        let stored = grid_of_event(self.map.grids_view(), grid);
        if self.map.grids_view().contains_key(grid.id) {
            grids_updated(self.map.grids_view(), stored)
        } else {
            grids_with(self.map.grids_view(), self.map.grids.values@, stored, neighbours)
        }
    }

    /// Whether an event changes the world.
    pub open spec fn changed_by(&self, event: Event) -> bool {
        match event {
            Event::MapTile { .. } => true,
            Event::MapGridAdd { .. } => true,
            Event::MapGridUpdate { .. } => true,
            Event::GobAdd { .. } => true,
            Event::GobRemove { id } => self.objects.history(id).len() == 1,
            Event::GobMove { id, .. } => self.objects.live(id).is_some(),
            _ => false,
        }
    }

    /// A world without grids and objects that knows the tiles of `map_db`.
    pub fn new(config: WorldConfig, map_db: D) -> (result: Self)
        ensures
            result.wf(),
            result.revision == 0,
            result.config == config,
            result.map.grids_view() == Map::<i64, GridData>::empty(),
            forall|id: i64| result.objects.history(id) == Seq::<ObjectData>::empty(),
    {
        World { revision: 0, objects: Objects::new(), map: WorldMap::new(map_db), config }
    }

    /// Whether `world` is the world of the snapshot `data`, set up with
    /// `config`.
    pub open spec fn restored(data: WorldData, config: WorldConfig, world: Self) -> bool {
        &&& world.wf()
        &&& world.revision == data.revision
        &&& world.config == config
        &&& world.map.name_index() == crate::map::name_index_after(
            crate::map::tile_views(data.map.tiles@),
        )
        &&& world.map.tiles_view() == crate::map::tiles_after(
            crate::map::tile_views(data.map.tiles@),
        )
        &&& world.map.grids_view() == crate::map::grids_from(
            crate::map::grid_views(data.map.grids@),
            data.map.grids.len() as int,
        )
        &&& forall|id: i64|
                world.objects.history(id) == Objects::snapshot_history(
                    crate::objects::object_views(data.objects.objects@),
                    data.objects.objects.len() as int,
                    id,
                )
        &&& world.objects.names() == Objects::snapshot_names(
            crate::objects::object_views(data.objects.objects@),
            data.objects.objects.len() as int,
        )
    }

    /// The world of a snapshot.
    pub fn from_world_data(data: WorldData, config: WorldConfig, map_db: D) -> (result: Self)
        ensures
            Self::restored(data, config, result),
    {
        World {
            revision: data.revision,
            objects: Objects::from_objects_data(data.objects),
            map: WorldMap::from_map_data(data.map, map_db),
            config,
        }
    }

    /// Whether `data` is the snapshot of the world: its tiles, grids and
    /// live objects, each in the order of their ids.
    pub open spec fn snapshot(&self, data: WorldData) -> bool {
        &&& data.revision == self.revision
        &&& crate::map::tile_views(data.map.tiles@) == crate::map::tile_views(
            self.map.tiles.values@,
        )
        &&& crate::map::grid_views(data.map.grids@) == crate::map::grid_views(
            self.map.grids.values@,
        )
        &&& data.objects.objects.len() == self.objects.objects.keys.len()
        &&& forall|i: int|
                0 <= i < data.objects.objects.len() ==> (#[trigger] data.objects.objects[i])@
                    == self.objects.objects.values[i]@.last()@
    }

    /// The world of the snapshot of a world has the revision, the grids
    /// and the live objects of that world.
    pub proof fn lemma_snapshot_keeps_replica(
        &self,
        data: WorldData,
        config: WorldConfig,
        anew: Self,
        id: i64,
    )
        requires
            self.wf(),
            self.snapshot(data),
            Self::restored(data, config, anew),
        ensures
            anew.revision == self.revision,
            anew.map.grids_view() == self.map.grids_view(),
            anew.objects.live(id) == self.objects.live(id),
    {
        self.map.lemma_grids_stored_anew();
        assert(crate::map::grid_views(data.map.grids@).len() == crate::map::grid_views(
            self.map.grids.values@,
        ).len());
        let views = crate::objects::object_views(data.objects.objects@);
        assert forall|i: int| 0 <= i < views.len() implies #[trigger] views[i]
            == self.objects.objects.values[i]@.last()@ by {
            assert(views[i] == data.objects.objects[i]@);
        }
        self.objects.lemma_snapshot_keeps_live(views, &anew.objects, id);
    }

    /// The world as a snapshot.
    pub fn as_world_data(&self) -> (result: WorldData)
        requires
            self.wf(),
        ensures
            self.snapshot(result),
    {
        WorldData {
            revision: self.revision,
            objects: self.objects.as_objects_data(),
            map: self.map.as_map_data(),
        }
    }

    pub fn objects(&self) -> (result: &Objects)
        ensures
            *result == self.objects,
    {
        &self.objects
    }

    fn update_map(&mut self, grid: MapGrid, neighbours: Vec<GridNeighbour>)
        requires
            old(self).wf(),
        ensures
            final(self).wf(),
            final(self).map.grids_view() == old(self).grids_after(grid, neighbours@),
            final(self).map.tiles == old(self).map.tiles,
            final(self).map.tiles_by_name == old(self).map.tiles_by_name,
            final(self).objects == old(self).objects,
            final(self).revision == old(self).revision,
            final(self).config == old(self).config,
            old(self).map.coherent() && old(self).map.grids_view().contains_key(grid.id)
                ==> final(self).map.coherent(),
    {
        let existing = match self.map.get_grid_by_id(grid.id) {
            Some(existing) => Some((existing.segment_id, existing.revision)),
            None => None,
        };
        match existing {
            Some((segment_id, revision)) => {
                let map_grid = Grid {
                    id: grid.id,
                    segment_id,
                    revision: if revision < i64::MAX {
                        revision + 1
                    } else {
                        revision
                    },
                    position: grid.position,
                    heights: grid.heights,
                    tiles: grid.tiles,
                };
                self.map.update_grid(map_grid);
            },
            None => {
                let map_grid = Grid {
                    id: grid.id,
                    segment_id: grid.id,
                    revision: 1,
                    position: grid.position,
                    heights: grid.heights,
                    tiles: grid.tiles,
                };
                self.map.add_grid(map_grid, neighbours);
            },
        }
    }

    /// Whether `after` is this world once it was brought up to date with
    /// `event`, and `changed` says whether the event changed it.
    ///
    /// A tile is set, a grid added or updated, an object added, moved or
    /// removed; any other event leaves the world as it is. Each event that
    /// changes the world counts one revision.
    pub open spec fn stepped(&self, event: Event, after: &Self, changed: bool) -> bool {
        &&& after.wf()
        &&& after.config == self.config
        &&& changed == self.changed_by(event)
        &&& after.revision == if changed {
            next_count(self.revision)
        } else {
            self.revision
        }
        &&& match event {
            Event::MapTile { id, version, name, color } => {
                let tile = TileData { id, version, name: name@, color };
                &&& after.map.name_index() == name_index_with(
                    self.map.name_index(),
                    tile,
                )
                &&& after.map.tiles_view() == if supersedes(
                    self.map.name_index(),
                    tile,
                ) {
                    self.map.tiles_view().insert(id, tile)
                } else {
                    self.map.tiles_view()
                }
                &&& after.map.grids == self.map.grids
                &&& after.objects == self.objects
            },
            Event::MapGridAdd { grid, neighbours } => {
                &&& after.map.grids_view() == self.grids_after(grid, neighbours@)
                &&& after.map.tiles == self.map.tiles
                &&& after.map.name_index() == self.map.name_index()
                &&& after.objects == self.objects
            },
            Event::MapGridUpdate { grid } => {
                &&& after.map.grids_view() == self.grids_after(grid, Seq::empty())
                &&& after.map.tiles == self.map.tiles
                &&& after.map.name_index() == self.map.name_index()
                &&& after.objects == self.objects
            },
            Event::GobAdd { id, position, angle, name } => {
                &&& after.objects.live(id) == Some(
                    ObjectData {
                        id,
                        position,
                        angle,
                        name: match name {
                            Some(name) => Some(name@),
                            None => None,
                        },
                    },
                )
                &&& after.objects.history(id).drop_last() == self.objects.history(
                    id,
                )
                &&& forall|other: i64|
                    other != id ==> after.objects.history(other) == self.objects.history(other)
                &&& after.objects.names() == match name {
                    Some(name) => self.objects.names().insert(name@, id),
                    None => self.objects.names(),
                }
                &&& after.objects.count() == self.objects.count() + if self.objects.live(
                    id,
                ).is_some() {
                    0nat
                } else {
                    1nat
                }
                &&& after.map == self.map
            },
            Event::GobRemove { id } => {
                &&& self.objects.history(id).len() > 0 ==> after.objects.history(id)
                    == self.objects.history(id).drop_first()
                &&& self.objects.history(id).len() == 0 ==> after.objects.history(
                    id,
                ) == self.objects.history(id)
                &&& forall|other: i64|
                    other != id ==> after.objects.history(other) == self.objects.history(other)
                &&& after.objects.names() == if self.objects.history(id).len() == 1 {
                    match self.objects.history(id)[0].name {
                        Some(name) => self.objects.names().remove(name),
                        None => self.objects.names(),
                    }
                } else {
                    self.objects.names()
                }
                &&& after.objects.count() == self.objects.count() - if changed {
                    1nat
                } else {
                    0nat
                }
                &&& after.map == self.map
            },
            Event::GobMove { id, position, angle } => {
                &&& changed ==> after.objects.live(id) == Some(
                    ObjectData { position, angle, ..self.objects.live(id).unwrap() },
                )
                &&& !changed ==> after.objects.history(id) == self.objects.history(id)
                &&& forall|other: i64|
                    other != id ==> after.objects.history(other) == self.objects.history(other)
                &&& after.objects.names() == self.objects.names()
                &&& after.objects.count() == self.objects.count()
                &&& after.map == self.map
            },
            _ => after.map == self.map && after.objects == self.objects,
        }
    }

    /// Brings the world up to date with an event; says whether the event
    /// changed it.
    pub fn update(&mut self, update: Update) -> (result: bool)
        requires
            old(self).wf(),
        ensures
            final(self).wf(),
            old(self).stepped(update.event, final(self), result),
    {
        let changed = match update.event {
            Event::MapTile { id, version, name, color } => {
                self.map.set_tile(Tile { id, version, name, color });
                true
            },
            Event::MapGridAdd { grid, neighbours } => {
                self.update_map(grid, neighbours);
                true
            },
            Event::MapGridUpdate { grid } => {
                self.update_map(grid, Vec::new());
                true
            },
            Event::GobAdd { id, position, angle, name } => {
                let ghost before = self.objects.history(id);
                self.objects.add(Object { id, position, angle, name });
                proof {
                    assert(self.objects.history(id).drop_last() =~= before);
                }
                true
            },
            Event::GobRemove { id } => self.objects.remove(id),
            Event::GobMove { id, position, angle } => self.objects.update(id, position, angle),
            _ => false,
        };
        if changed && self.revision < u64::MAX {
            self.revision = self.revision + 1;
        }
        changed
    }
}

/// The world as the player sees it: the player's segment is the frame,
/// and `player_grid_offset` leads from the player's grid coordinates to
/// the places of that segment.
pub struct PlayerWorld<'a, D: MapDb> {
    pub revision: u64,
    pub map_view_id: i32,
    pub game_ui_id: i32,
    pub player: &'a Player,
    pub player_name: &'a String,
    pub player_object_id: i64,
    pub player_position: WorldPos,
    pub player_grid_id: i64,
    pub player_segment_id: i64,
    pub player_grid_offset: Vec2i,
    pub player_stamina: i32,
    pub player_equipment: PlayerEquipment<'a>,
    pub objects: &'a Objects,
    pub map: &'a WorldMap<D>,
    pub config: &'a WorldConfig,
}

impl<D: MapDb> World<D> {
    /// Whether the player is located: its map view, its game interface,
    /// its name, its object, its grid, its stamina and its equipment are
    /// known, its object is among the objects and its grid among the grids.
    pub open spec fn locates(&self, player: &Player) -> bool {
        &&& player@.map_view_id.is_some()
        &&& player@.game_ui_id.is_some()
        &&& player@.name.is_some()
        &&& player@.object_id.is_some()
        &&& player@.grid_id.is_some()
        &&& player@.stamina.value.is_some()
        &&& player@.equipment_widget.is_some()
        &&& self.objects.live(player@.object_id.unwrap()).is_some()
        &&& self.map.grids_view().contains_key(player@.grid_id.unwrap())
    }

    /// Whether `view` is the world as seen from where the located player
    /// stands: it holds what is known of the player, the place of the
    /// player's object, the segment of the player's grid and how far the
    /// grid lies from the tiles of that place, and the objects, the map
    /// and the configuration of the world.
    pub open spec fn shows(&self, player: &Player, view: PlayerWorld<'_, D>) -> bool {
        let grid = self.map.grids_view()[player@.grid_id.unwrap()];
        let seen = self.objects.live(player@.object_id.unwrap()).unwrap();
        &&& view.wf()
        &&& view.revision == self.revision
        &&& Some(view.map_view_id) == player@.map_view_id
        &&& Some(view.game_ui_id) == player@.game_ui_id
        &&& *view.player == *player
        &&& Some(view.player_name@) == player@.name
        &&& Some(view.player_object_id) == player@.object_id
        &&& view.player_position == seen.position
        &&& Some(view.player_grid_id) == player@.grid_id
        &&& view.player_segment_id == grid.segment_id
        &&& view.player_grid_offset == grid.position.wrapping_sub_spec(
            tile_pos_to_grid_pos_spec(seen.position.tile),
        )
        &&& Some(view.player_stamina) == player@.stamina.value
        &&& *view.player_equipment.slots == player.equipment.slots
        &&& *view.player_equipment.config == player.equipment.config
        &&& *view.objects == self.objects
        &&& *view.map == self.map
        &&& *view.config == self.config
    }

    /// The view of the world from where the player stands, if the player
    /// is located.
    pub fn for_player<'a>(&'a self, player: &'a Player) -> (result: Option<PlayerWorld<'a, D>>)
        requires
            self.wf(),
            player.wf(),
        ensures
            result.is_some() == self.locates(player),
            result.is_some() ==> self.shows(player, result.unwrap()),
    {
        let map_view_id = match player.map_view_id() {
            Some(v) => v,
            None => return None,
        };
        let game_ui_id = match player.game_ui_id() {
            Some(v) => v,
            None => return None,
        };
        let player_name = match player.name() {
            Some(v) => v,
            None => return None,
        };
        let player_object_id = match player.object_id() {
            Some(v) => v,
            None => return None,
        };
        let player_grid_id = match player.grid_id() {
            Some(v) => v,
            None => return None,
        };
        let player_stamina = match player.stamina() {
            Some(v) => v,
            None => return None,
        };
        let player_equipment = match player.equipment() {
            Some(v) => v,
            None => return None,
        };
        let player_position = match self.objects.get_by_id(player_object_id) {
            Some(object) => object.position,
            None => return None,
        };
        let grid = match self.map.get_grid_by_id(player_grid_id) {
            Some(grid) => grid,
            None => return None,
        };
        let grid_pos = tile_pos_to_grid_pos(player_position.tile);
        Some(
            PlayerWorld {
                revision: self.revision,
                map_view_id,
                game_ui_id,
                player,
                player_name,
                player_object_id,
                player_position,
                player_grid_id,
                player_segment_id: grid.segment_id,
                player_grid_offset: grid.position.wrapping_sub(grid_pos),
                player_stamina,
                player_equipment,
                objects: &self.objects,
                map: &self.map,
                config: &self.config,
            },
        )
    }
}

impl<'a, D: MapDb> PlayerWorld<'a, D> {
    /// Whether the parts of the world that the view leads to are well
    /// formed.
    pub open spec fn wf(&self) -> bool {
        &&& self.map.wf()
        &&& self.objects.wf()
        &&& self.player.wf()
        &&& self.player_equipment.slots.wf()
    }

    /// The place in the player's segment of the tile at `tile_pos`,
    /// counted in the player's coordinates.
    pub open spec fn segment_pos(&self, tile_pos: Vec2i) -> Vec2i {
        wrapping_tile_pos(self.player_grid_offset, tile_pos)
    }

    pub fn revision(&self) -> (result: u64)
        ensures
            result == self.revision,
    {
        self.revision
    }

    pub fn map_view_id(&self) -> (result: i32)
        ensures
            result == self.map_view_id,
    {
        self.map_view_id
    }

    pub fn game_ui_id(&self) -> (result: i32)
        ensures
            result == self.game_ui_id,
    {
        self.game_ui_id
    }

    pub fn player_object_id(&self) -> (result: i64)
        ensures
            result == self.player_object_id,
    {
        self.player_object_id
    }

    pub fn player_position(&self) -> (result: WorldPos)
        ensures
            result == self.player_position,
    {
        self.player_position
    }

    pub fn player_segment_id(&self) -> (result: i64)
        ensures
            result == self.player_segment_id,
    {
        self.player_segment_id
    }

    pub fn player_grid_id(&self) -> (result: i64)
        ensures
            result == self.player_grid_id,
    {
        self.player_grid_id
    }

    pub fn is_player_stuck(&self) -> (result: bool)
        ensures
            result == self.player@.is_stuck,
    {
        self.player.is_stuck()
    }

    pub fn player_stamina(&self) -> (result: i32)
        ensures
            result == self.player_stamina,
    {
        self.player_stamina
    }

    /// The items of the player's inventory, if that inventory is known.
    pub fn player_inventory_items(&self) -> (result: Option<&OrderedMap<Item>>)
        requires
            self.wf(),
        ensures
            result.is_some() == (self.player@.inventory_id.is_some()
                && self.player.widget_inventories@.contains_key(
                self.player@.inventory_id.unwrap() as i128,
            )),
            result.is_some() ==> *result.unwrap()
                == self.player.widget_inventories@[self.player@.inventory_id.unwrap() as i128]
                && result.unwrap().wf(),
    {
        match self.player.inventory_id() {
            Some(id) => self.player.widget_inventories.get(id as i128),
            None => None,
        }
    }

    /// The items of the player's belt, if the inventory of the belt is
    /// known.
    pub fn player_belt_items(&self) -> (result: Option<&OrderedMap<Item>>)
        requires
            self.wf(),
        ensures
            result.is_some() == (self.player@.belt_inventory_id.is_some()
                && self.player.widget_inventories@.contains_key(
                self.player@.belt_inventory_id.unwrap() as i128,
            )),
            result.is_some() ==> *result.unwrap()
                == self.player.widget_inventories@[self.player@.belt_inventory_id.unwrap() as i128]
                && result.unwrap().wf(),
    {
        match self.player.belt_inventory_id() {
            Some(id) => self.player.widget_inventories.get(id as i128),
            None => None,
        }
    }

    pub fn player_equipment(&self) -> (result: &PlayerEquipment<'a>)
        ensures
            *result == self.player_equipment,
    {
        &self.player_equipment
    }

    pub fn widgets(&self) -> (result: &OrderedMap<Widget>)
        ensures
            *result == self.player.widgets,
    {
        self.player.widgets()
    }

    pub fn resources(&self) -> (result: &OrderedMap<Resource>)
        ensures
            *result == self.player.resources,
    {
        self.player.resources()
    }

    pub fn config(&self) -> (result: &WorldConfig)
        ensures
            *result == *self.config,
    {
        self.config
    }

    /// The live version of the object that `name` resolves to.
    pub fn get_object_by_name(&self, name: &String) -> (result: Option<&Object>)
        requires
            self.wf(),
        ensures
            result.is_some() == (self.objects.names().contains_key(name@) && self.objects.live(
                self.objects.names()[name@],
            ).is_some()),
            result.is_some() ==> result.unwrap()@ == self.objects.live(
                self.objects.names()[name@],
            ).unwrap(),
    {
        self.objects.get_by_name(name)
    }

    /// The id that the tile name `name` resolves to.
    pub fn get_tile_id_by_name(&self, name: &String) -> (result: Option<i32>)
        ensures
            self.map.name_index().contains_key(name@) ==> result == Some(
                self.map.name_index()[name@].id,
            ),
    {
        self.map.get_tile_id_by_name(name)
    }

    /// The tile with the id `id`.
    pub fn get_tile_by_id(&self, id: i32) -> (result: Option<&Tile>)
        requires
            self.wf(),
        ensures
            result.is_some() == self.map.tiles_view().contains_key(id),
            result.is_some() ==> result.unwrap()@ == self.map.tiles_view()[id],
    {
        self.map.get_tile_by_id(id)
    }

    /// The tile at `tile_pos`, counted in the player's coordinates: by the
    /// grids here, else by the store behind the session.
    pub fn get_tile(&self, tile_pos: Vec2i) -> (result: Option<i32>)
        requires
            self.wf(),
        ensures
            self.map.holds_tile(self.player_segment_id, self.segment_pos(tile_pos)) ==> result
                == self.map.local_tile_at(self.player_segment_id, self.segment_pos(tile_pos)),
    {
        let shifted = Vec2i {
            x: self.player_grid_offset.x.wrapping_mul(100).wrapping_add(tile_pos.x),
            y: self.player_grid_offset.y.wrapping_mul(100).wrapping_add(tile_pos.y),
        };
        self.map.get_tile(self.player_segment_id, shifted)
    }

    /// The grids in the order of their ids.
    pub fn iter_grids(&self) -> (result: &Vec<Grid>)
        ensures
            result@ == self.map.grids.values@,
    {
        self.map.iter_grids()
    }

    /// The live versions of all objects, in the order of their ids.
    pub fn iter_objects(&self) -> (result: Vec<&Object>)
        requires
            self.wf(),
        ensures
            result.len() == self.objects.objects.keys.len(),
            forall|i: int|
                0 <= i < result.len() ==> (#[trigger] result[i])@
                    == self.objects.objects.values[i]@.last()@,
    {
        self.objects.iter()
    }

    /// The number of objects.
    pub fn objects_len(&self) -> (result: usize)
        requires
            self.wf(),
        ensures
            result == self.objects.objects@.dom().len(),
    {
        self.objects.len()
    }

    /// The grid with the id `grid_id`.
    pub fn get_grid_by_id(&self, grid_id: i64) -> (result: Option<&Grid>)
        requires
            self.wf(),
        ensures
            result.is_some() == self.map.grids_view().contains_key(grid_id),
            result.is_some() ==> result.unwrap()@ == self.map.grids_view()[grid_id],
    {
        self.map.get_grid_by_id(grid_id)
    }

    /// The allowed tiles on the open border of the player's segment.
    pub fn find_border_tiles<T: TileSet>(&self, weights: &T) -> (result: Vec<Vec2i>)
        requires
            self.wf(),
        ensures
            result@ == self.map.border_tiles(self.player_segment_id, weights),
    {
        self.map.find_border_tiles(self.player_segment_id, weights)
    }
}

} // verus!
