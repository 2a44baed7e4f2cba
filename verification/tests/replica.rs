use hafen_bot::coords::grid_pos_to_tile_pos;
use hafen_bot::grid::{Grid, GridNeighbour, Tile, TileSet};
use hafen_bot::map::{plan_merge, Link, MapData, MergePlan, SegmentMove, WorldMap};
use hafen_bot::map_db::NoMapDb;
use hafen_bot::objects::{Object, Objects, ObjectsData};
use hafen_bot::process::{is_fresh, opening_messages, route_update, Route};
use hafen_bot::protocol::{Event, Message, Vec2f, WorldPos};
use hafen_bot::vec2::Vec2i;

struct Allowed(Vec<i32>);

impl TileSet for Allowed {
    fn has(&self, tile: i32) -> bool {
        self.0.contains(&tile)
    }

    fn contains(&self, tile: i32) -> bool {
        self.0.contains(&tile)
    }
}

fn tile(id: i32, version: i32, name: &str) -> Tile {
    Tile { id, version, name: String::from(name), color: 0 }
}

fn grid(id: i64, position: Vec2i, tile: i32) -> Grid {
    Grid {
        id,
        revision: 1,
        segment_id: id,
        position,
        heights: vec![0; 10000],
        tiles: vec![tile; 10000],
    }
}

fn at(x: f64, y: f64) -> WorldPos {
    WorldPos {
        point: Vec2f { x: x.to_bits(), y: y.to_bits() },
        tile: Vec2i::new((x / 11.0).floor() as i32, (y / 11.0).floor() as i32),
        map_pos: Vec2i::new((x / (11.0 / 1024.0)).floor() as i32, (y / (11.0 / 1024.0)).floor() as i32),
    }
}

fn object(id: i64, x: f64, name: Option<&str>) -> Object {
    Object { id, position: at(x, 0.0), angle: 0, name: name.map(String::from) }
}

#[test]
fn tile_name_resolves_to_the_greatest_version_seen() {
    let mut map = WorldMap::new(NoMapDb {});
    map.set_tile(tile(1, 5, "water"));
    assert_eq!(map.get_tile_id_by_name(&String::from("water")), Some(1));
    map.set_tile(tile(2, 3, "water"));
    assert_eq!(map.get_tile_id_by_name(&String::from("water")), Some(1));
    assert_eq!(map.get_tile_by_id(2), None);
    map.set_tile(tile(3, 5, "water"));
    assert_eq!(map.get_tile_id_by_name(&String::from("water")), Some(1));
    map.set_tile(tile(4, 6, "water"));
    assert_eq!(map.get_tile_id_by_name(&String::from("water")), Some(4));
    assert_eq!(map.get_tile_by_id(4), Some(&tile(4, 6, "water")));
    assert_eq!(map.get_tile_id_by_name(&String::from("ice")), None);
    map.set_tile(tile(9, 1, "ice"));
    assert_eq!(map.get_tile_id_by_name(&String::from("ice")), Some(9));
}

#[test]
fn map_from_tiles_sets_them_one_after_the_other() {
    let map = WorldMap::with_tiles(
        vec![tile(1, 2, "a"), tile(2, 1, "a"), tile(3, 1, "b")],
        NoMapDb {},
    );
    assert_eq!(map.get_tile_id_by_name(&String::from("a")), Some(1));
    assert_eq!(map.get_tile_id_by_name(&String::from("b")), Some(3));
    assert_eq!(map.get_tile_by_id(2), None);
}

#[test]
fn every_grid_is_found_at_its_place() {
    let mut map = WorldMap::new(NoMapDb {});
    map.add_grid(grid(1, Vec2i::new(0, 0), 7), Vec::new());
    map.add_grid(grid(2, Vec2i::new(5, 5), 8), vec![GridNeighbour { id: 1, offset: Vec2i::new(-1, 0) }]);
    map.add_grid(grid(3, Vec2i::new(0, 0), 9), Vec::new());
    for found in map.iter_grids() {
        assert_eq!(map.get_grid(found.segment_id, found.position).map(|v| v.id), Some(found.id));
    }
    assert_eq!(map.get_grid_by_id(2).map(|v| (v.segment_id, v.position)), Some((1, Vec2i::new(1, 0))));
    assert_eq!(map.get_grid_by_id(3).map(|v| (v.segment_id, v.position)), Some((3, Vec2i::new(0, 0))));
    assert_eq!(map.count_segment(1), 2);
    assert_eq!(map.count_segment(3), 1);
    assert_eq!(map.count_segment(2), 0);
}

#[test]
fn greater_segment_is_kept_when_segments_merge() {
    let mut map = WorldMap::new(NoMapDb {});
    map.add_grid(grid(1, Vec2i::new(0, 0), 1), Vec::new());
    map.add_grid(grid(2, Vec2i::new(0, 0), 1), Vec::new());
    map.add_grid(grid(3, Vec2i::new(0, 0), 1), vec![GridNeighbour { id: 2, offset: Vec2i::new(1, 0) }]);
    assert_eq!(map.get_grid_by_id(3).map(|v| (v.segment_id, v.position)), Some((2, Vec2i::new(-1, 0))));
    map.add_grid(grid(4, Vec2i::new(0, 0), 1), vec![
        GridNeighbour { id: 1, offset: Vec2i::new(0, 1) },
        GridNeighbour { id: 3, offset: Vec2i::new(0, -1) },
    ]);
    assert_eq!(map.get_grid_by_id(4).map(|v| (v.segment_id, v.position)), Some((2, Vec2i::new(-1, 1))));
    assert_eq!(map.get_grid_by_id(1).map(|v| (v.segment_id, v.position, v.revision)), Some((2, Vec2i::new(-1, 2), 2)));
    assert_eq!(map.get_grid_by_id(2).map(|v| (v.segment_id, v.position, v.revision)), Some((2, Vec2i::new(0, 0), 1)));
    assert_eq!(map.get_grid(2, Vec2i::new(-1, 2)).map(|v| v.id), Some(1));
    assert_eq!(map.get_grid(1, Vec2i::new(0, 0)), None);
}

#[test]
fn update_grid_shifts_the_whole_segment() {
    let mut map = WorldMap::new(NoMapDb {});
    map.add_grid(grid(1, Vec2i::new(0, 0), 1), Vec::new());
    map.add_grid(grid(2, Vec2i::new(0, 0), 2), vec![GridNeighbour { id: 1, offset: Vec2i::new(-1, 0) }]);
    map.add_grid(grid(3, Vec2i::new(7, 7), 3), Vec::new());
    let mut moved = map.get_grid_by_id(1).unwrap().clone();
    moved.position = Vec2i::new(10, 20);
    map.update_grid(moved);
    assert_eq!(map.get_grid_by_id(1).map(|v| v.position), Some(Vec2i::new(10, 20)));
    assert_eq!(map.get_grid_by_id(2).map(|v| v.position), Some(Vec2i::new(11, 20)));
    assert_eq!(map.get_grid_by_id(3).map(|v| v.position), Some(Vec2i::new(7, 7)));
    assert_eq!(map.get_grid(1, Vec2i::new(11, 20)).map(|v| v.id), Some(2));
    assert_eq!(map.get_grid(1, Vec2i::new(1, 0)), None);
    assert_eq!(map.get_tile(1, grid_pos_to_tile_pos(Vec2i::new(11, 20))), Some(2));
    assert_eq!(map.get_local_tile(1, Vec2i::new(1099, 2099)), Some(1));
    assert_eq!(map.get_local_tile(1, Vec2i::new(999, 2000)), None);
}

#[test]
fn border_tiles_lie_on_the_open_sides() {
    let mut map = WorldMap::new(NoMapDb {});
    let mut left = grid(1, Vec2i::new(0, 0), 1);
    left.tiles[0] = 2;
    left.tiles[99] = 2;
    map.add_grid(left, Vec::new());
    map.add_grid(grid(2, Vec2i::new(0, 0), 1), vec![GridNeighbour { id: 1, offset: Vec2i::new(-1, 0) }]);
    let border = map.find_border_tiles(1, &Allowed(vec![2]));
    assert_eq!(border, vec![Vec2i::new(0, 0), Vec2i::new(0, 0), Vec2i::new(99, 0)]);
    let all = map.find_border_tiles(1, &Allowed(vec![1, 2]));
    assert_eq!(all.len(), 600);
    assert_eq!(all[0], Vec2i::new(0, 0));
    assert_eq!(all[100], Vec2i::new(0, 0));
    assert_eq!(all[299], Vec2i::new(99, 99));
    assert_eq!(all[300], Vec2i::new(199, 0));
    assert_eq!(map.find_border_tiles(7, &Allowed(vec![1, 2])), Vec::<Vec2i>::new());
}

#[test]
fn map_data_round_trip() {
    let mut map = WorldMap::new(NoMapDb {});
    map.set_tile(tile(2, 1, "b"));
    map.set_tile(tile(1, 1, "a"));
    map.add_grid(grid(9, Vec2i::new(1, 1), 1), Vec::new());
    map.add_grid(grid(4, Vec2i::new(2, 2), 1), Vec::new());
    let data = map.as_map_data();
    assert_eq!(data.tiles.iter().map(|v| v.id).collect::<Vec<_>>(), vec![1, 2]);
    assert_eq!(data.grids.iter().map(|v| v.id).collect::<Vec<_>>(), vec![4, 9]);
    let copy = WorldMap::from_map_data(MapData { tiles: data.tiles.clone(), grids: data.grids.clone() }, NoMapDb {});
    assert_eq!(copy.as_map_data(), data);
    assert_eq!(copy.get_grid(9, Vec2i::new(1, 1)).map(|v| v.id), Some(9));
    assert_eq!(copy.get_tile_id_by_name(&String::from("b")), Some(2));
}

#[test]
fn objects_keep_versions_until_removed() {
    let mut objects = Objects::new();
    objects.add(object(1, 1.0, Some("boat")));
    assert_eq!(objects.get_by_id(1).map(|v| v.position), Some(at(1.0, 0.0)));
    assert!(objects.update(1, at(2.0, 0.0), 5));
    assert_eq!(objects.get_by_id(1).map(|v| (v.position, v.angle)), Some((at(2.0, 0.0), 5)));
    objects.add(object(1, 30.0, None));
    assert_eq!(objects.get_by_id(1).map(|v| v.position), Some(at(30.0, 0.0)));
    assert_eq!(objects.len(), 1);
    assert!(!objects.remove(1));
    assert_eq!(objects.get_by_id(1).map(|v| v.position), Some(at(30.0, 0.0)));
    assert_eq!(objects.get_by_name(&String::from("boat")).map(|v| v.id), Some(1));
    assert!(objects.remove(1));
    assert_eq!(objects.get_by_id(1), None);
    assert_eq!(objects.len(), 0);
    assert!(!objects.remove(1));
    assert!(!objects.update(1, at(0.0, 0.0), 0));
}

#[test]
fn object_name_goes_with_the_last_version() {
    let mut objects = Objects::new();
    objects.add(object(1, 1.0, Some("boat")));
    objects.add(object(2, 2.0, Some("raft")));
    assert_eq!(objects.get_by_name(&String::from("raft")).map(|v| v.id), Some(2));
    assert!(objects.remove(1));
    assert_eq!(objects.get_by_name(&String::from("boat")), None);
    assert_eq!(objects.iter().iter().map(|v| v.id).collect::<Vec<_>>(), vec![2]);
}

#[test]
fn objects_data_round_trip() {
    let mut objects = Objects::new();
    objects.add(object(5, 1.0, Some("boat")));
    objects.add(object(3, 2.0, None));
    objects.add(object(5, 9.0, Some("boat")));
    let data = objects.as_objects_data();
    assert_eq!(data.objects.iter().map(|v| (v.id, v.position)).collect::<Vec<_>>(), vec![(3, at(2.0, 0.0)), (5, at(9.0, 0.0))]);
    let copy = Objects::from_objects_data(ObjectsData { objects: data.objects.clone() });
    assert_eq!(copy.as_objects_data(), data);
    assert_eq!(copy.get_by_name(&String::from("boat")).map(|v| v.id), Some(5));
}

#[test]
fn merge_is_planned_by_the_sizes_of_the_segments() {
    assert_eq!(plan_merge(&Vec::new(), &Vec::new()), None);
    let links = vec![
        Link { segment_id: 7, offset: Vec2i::new(1, 0), position: Vec2i::new(5, 5) },
        Link { segment_id: 3, offset: Vec2i::new(0, 1), position: Vec2i::new(-2, 9) },
        Link { segment_id: 7, offset: Vec2i::new(-1, 0), position: Vec2i::new(3, 5) },
        Link { segment_id: 9, offset: Vec2i::new(0, -1), position: Vec2i::new(0, 0) },
    ];
    let plan = plan_merge(&links, &vec![2, 4, 2, 4]).unwrap();
    assert_eq!(
        plan,
        MergePlan {
            segment_id: 3,
            position: Vec2i::new(-2, 8),
            moves: vec![
                SegmentMove { segment_id: 7, shift: Vec2i::new(-6, 3) },
                SegmentMove { segment_id: 9, shift: Vec2i::new(-2, 7) },
            ],
        }
    );
    let alone = plan_merge(&links[..1].to_vec(), &vec![1]).unwrap();
    assert_eq!(alone, MergePlan { segment_id: 7, position: Vec2i::new(4, 5), moves: vec![] });
}

#[test]
fn updates_are_routed_by_their_events() {
    assert_eq!(route_update(&Event::SessionData { value: Some(String::from("{}")) }, true), Route::Restore);
    assert_eq!(route_update(&Event::SessionData { value: Some(String::from("{}")) }, false), Route::Restore);
    assert_eq!(route_update(&Event::SessionData { value: None }, true), Route::Enqueue);
    assert_eq!(route_update(&Event::SessionData { value: None }, false), Route::Open);
    assert_eq!(route_update(&Event::Cancel, true), Route::Cancel);
    assert_eq!(route_update(&Event::Cancel, false), Route::Cancel);
    assert_eq!(route_update(&Event::Close, true), Route::Enqueue);
    assert_eq!(route_update(&Event::Destroy { id: 1 }, false), Route::Create);
}

#[test]
fn cached_value_is_good_for_less_than_its_time_to_live() {
    assert!(is_fresh(100, 109, Some(10)));
    assert!(!is_fresh(100, 110, Some(10)));
    assert!(is_fresh(100, 50, Some(1)));
    assert!(!is_fresh(100, 100, Some(0)));
    assert!(!is_fresh(100, 100, None));
}

#[test]
fn session_begins_by_asking_for_its_data() {
    assert_eq!(opening_messages(), vec![Message::GetSessionData]);
}
