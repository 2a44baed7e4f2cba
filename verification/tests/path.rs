use std::collections::BTreeMap;
use std::sync::atomic::AtomicBool;

use hafen_bot::geometry::{Geometry, StepGeometry, TileIdCost};
use hafen_bot::grid::TileSet;
use hafen_bot::map_db::NoMapDb;
use hafen_bot::path::{
    reconstruct_path, LineStart, LineWalker, Search, SearchStatus, ShortcutLimit, Step,
    TileCache, TileWeights,
};
use hafen_bot::ordered_map::OrderedMap;
use hafen_bot::path::make_pos_key;
use hafen_bot::path_finder::consume_path;
use hafen_bot::player::{EquipmentConfig, ItemsConfig, MetersConfig, Player, PlayerConfig};
use hafen_bot::protocol::{Event, MapGrid, Update, Value, Vec2f, WorldPos};
use hafen_bot::vec2::Vec2i;
use hafen_bot::world::{World, WorldConfig};

struct FloatWeights(BTreeMap<i32, f64>);

impl TileSet for FloatWeights {
    fn has(&self, tile: i32) -> bool {
        self.0.contains_key(&tile)
    }

    fn contains(&self, tile: i32) -> bool {
        self.0.contains_key(&tile)
    }
}

fn center_distance(a: Vec2i, b: Vec2i) -> f64 {
    let dx = b.x as f64 - a.x as f64;
    let dy = b.y as f64 - a.y as f64;
    (dx * dx + dy * dy).sqrt()
}

impl TileWeights for FloatWeights {
    type Cost = f64;

    fn cost_of(&self, tile: i32) -> Option<f64> {
        self.get(tile)
    }

    fn no_cost(&self) -> f64 {
        self.start()
    }

    fn cost_with(&self, so_far: f64, diagonal: bool, from: f64, to: f64) -> f64 {
        self.extend(so_far, diagonal, from, to)
    }

    fn prefers(&self, new: f64, known: Option<f64>) -> bool {
        self.improves(new, known)
    }

    fn rank_of(&self, cost: f64, tile: Vec2i, goal: Vec2i) -> i32 {
        self.score(cost, tile, goal)
    }

    fn get(&self, tile: i32) -> Option<f64> {
        self.0.get(&tile).copied()
    }

    fn start(&self) -> f64 {
        0.0
    }

    fn extend(&self, so_far: f64, diagonal: bool, from: f64, to: f64) -> f64 {
        let distance = if diagonal { std::f64::consts::SQRT_2 } else { 1.0 };
        so_far + distance * (from + to) / 2.0
    }

    fn improves(&self, new: f64, known: Option<f64>) -> bool {
        new < known.unwrap_or(f64::MAX)
    }

    fn score(&self, cost: f64, tile: Vec2i, goal: Vec2i) -> i32 {
        ((cost + center_distance(tile, goal)) * 100000.0).round() as i32
    }
}

struct Lines;

impl LineWalker for Lines {
    fn line_len(&self, from: LineStart, to: Vec2i, max_length: u64) -> usize {
        self.walk(from, to, max_length).0.len()
    }

    fn line_tile(&self, from: LineStart, to: Vec2i, max_length: u64, k: usize) -> Vec2i {
        self.walk(from, to, max_length).0[k]
    }

    fn line_complete(&self, from: LineStart, to: Vec2i, max_length: u64) -> bool {
        self.walk(from, to, max_length).1
    }

    fn walk(&self, from: LineStart, to: Vec2i, max_length: u64) -> (Vec<Vec2i>, bool) {
        let start = match from {
            LineStart::TileCenter(tile) => tile,
            LineStart::Point(point) => Vec2i::new(
                (f64::from_bits(point.x) / 11.0).floor() as i32,
                (f64::from_bits(point.y) / 11.0).floor() as i32,
            ),
        };
        let limit = f64::from_bits(max_length);
        let mut visited = Vec::new();
        let steps = (to.x - start.x).abs().max((to.y - start.y).abs());
        for step in 0..=steps {
            let tile = if steps == 0 {
                start
            } else {
                Vec2i::new(
                    start.x + (to.x - start.x) * step / steps,
                    start.y + (to.y - start.y) * step / steps,
                )
            };
            if center_distance(start, tile) > limit {
                return (visited, false);
            }
            visited.push(tile);
        }
        (visited, true)
    }
}

impl Geometry for Lines {
    type Weights = FloatWeights;

    fn weights(&self, costs: &Vec<TileIdCost>) -> FloatWeights {
        FloatWeights(costs.iter().map(|v| (v.id, f64::from_bits(v.cost))).collect())
    }

    fn far(&self, tile_pos: Vec2i, middle: bool, from: WorldPos) -> bool {
        self.tile_is_far(tile_pos, middle, from)
    }

    fn map_far(&self, map_pos: Vec2i, from: WorldPos, limit: u64) -> bool {
        self.map_pos_is_far(map_pos, from, limit)
    }

    fn rank(&self, tile_pos: Vec2i, from: WorldPos) -> i32 {
        self.distance_score(tile_pos, from)
    }

    fn tile_is_far(&self, tile_pos: Vec2i, _middle: bool, from: WorldPos) -> bool {
        center_distance(tile_pos, from.tile) > 1.5
    }

    fn map_pos_is_far(&self, map_pos: Vec2i, from: WorldPos, limit: u64) -> bool {
        center_distance(map_pos, from.map_pos) > f64::from_bits(limit)
    }

    fn distance_score(&self, tile_pos: Vec2i, from: WorldPos) -> i32 {
        (center_distance(tile_pos, from.tile) * 100000.0).round() as i32
    }
}

fn config() -> PlayerConfig {
    PlayerConfig {
        meters: MetersConfig { stamina: String::from("stam") },
        equipment: EquipmentConfig { belt: 5 },
        items: ItemsConfig {
            content: String::from("c"),
            content_name: String::from("cn"),
            quality: String::from("q"),
        },
    }
}

fn at_tile(x: i32, y: i32) -> WorldPos {
    let px = x as f64 * 11.0 + 5.5;
    let py = y as f64 * 11.0 + 5.5;
    WorldPos {
        point: Vec2f { x: px.to_bits(), y: py.to_bits() },
        tile: Vec2i::new(x, y),
        map_pos: Vec2i::new(x * 1024 + 512, y * 1024 + 512),
    }
}

const WATER: i32 = 1;
const ROCK: i32 = 2;

fn lake(rocks: &[(i32, i32)], start: (i32, i32)) -> (World<NoMapDb>, Player) {
    let mut tiles = vec![WATER; 10000];
    for &(x, y) in rocks {
        tiles[(x + y * 100) as usize] = ROCK;
    }
    let mut world = World::new(
        WorldConfig { water_tiles: Vec::new(), ice_tiles: Vec::new(), report_iterations: 1000 },
        NoMapDb {},
    );
    let mut player = Player::new(config());
    let events = vec![
        Event::ResourceAdd { id: 100, version: 1, name: String::from("stam") },
        Event::NewWidget { id: 6, kind: String::from("gameui"), parent: 0, pargs: vec![], cargs: vec![Value::Str { value: String::from("Jorb") }, Value::Int { value: 42 }] },
        Event::NewWidget { id: 7, kind: String::from("mapview"), parent: 6, pargs: vec![], cargs: vec![] },
        Event::NewWidget { id: 33, kind: String::from("im"), parent: 6, pargs: vec![], cargs: vec![Value::Int { value: 100 }] },
        Event::NewWidget { id: 8, kind: String::from("epry"), parent: 6, pargs: vec![], cargs: vec![] },
        Event::UIMessage { id: 33, msg: String::from("set"), args: vec![Value::Nil, Value::Int { value: 80 }] },
        Event::MapGridAdd { grid: MapGrid { id: 1, position: Vec2i::new(0, 0), heights: vec![0; 10000], tiles }, neighbours: vec![] },
        Event::GobAdd { id: 42, position: at_tile(start.0, start.1), angle: 0, name: None },
    ];
    let mut number = 0;
    for event in events {
        number += 1;
        let update = Update { session: 1, number, event };
        player.update(world.objects(), &update, 0);
        world.update(update);
    }
    (world, player)
}

fn water() -> FloatWeights {
    FloatWeights(BTreeMap::from([(WATER, 1.0)]))
}

fn limit(length: f64) -> ShortcutLimit {
    ShortcutLimit { steps: length.floor() as i64, length: length.to_bits() }
}

fn adjacent(a: Vec2i, b: Vec2i) -> bool {
    (a.x - b.x).abs() <= 1 && (a.y - b.y).abs() <= 1 && a != b
}

#[test]
fn path_from_a_tile_to_itself_is_that_tile() {
    let (world, player) = lake(&[], (10, 10));
    let view = world.for_player(&player).unwrap();
    let cancel = AtomicBool::new(false);
    let found = view.find_path(Vec2i::new(10, 10), Vec2i::new(10, 10), &water(), limit(25.0), 1000, &Lines, &cancel);
    assert_eq!(found.tiles, vec![Vec2i::new(10, 10)]);
    let blocked = view.find_path(Vec2i::new(10, 10), Vec2i::new(10, 10), &FloatWeights(BTreeMap::new()), limit(25.0), 0, &Lines, &AtomicBool::new(true));
    assert_eq!(blocked.tiles, vec![Vec2i::new(10, 10)]);
}

#[test]
fn unreachable_destination_gives_no_path() {
    let (world, player) = lake(&[(20, 10)], (10, 10));
    let view = world.for_player(&player).unwrap();
    let cancel = AtomicBool::new(false);
    let found = view.find_path(Vec2i::new(10, 10), Vec2i::new(20, 10), &water(), limit(25.0), 100000, &Lines, &cancel);
    assert_eq!(found.tiles, Vec::<Vec2i>::new());
}

#[test]
fn cancelled_search_gives_no_path() {
    let (world, player) = lake(&[], (10, 10));
    let view = world.for_player(&player).unwrap();
    let cancel = AtomicBool::new(true);
    let found = view.find_path(Vec2i::new(10, 10), Vec2i::new(20, 10), &water(), limit(25.0), 100000, &Lines, &cancel);
    assert_eq!(found.tiles, Vec::<Vec2i>::new());
    let mut search = Search::new(Vec2i::new(10, 10), Vec2i::new(20, 10), &water());
    match search.step(&view, &water(), 100000, true) {
        SearchStatus::Finished(tiles) => assert_eq!(tiles, Vec::<Vec2i>::new()),
        SearchStatus::Running => panic!("a cancelled search went on"),
    }
}

#[test]
fn search_out_of_iterations_gives_no_path() {
    let (world, player) = lake(&[], (10, 10));
    let view = world.for_player(&player).unwrap();
    let cancel = AtomicBool::new(false);
    let none = view.find_path(Vec2i::new(10, 10), Vec2i::new(20, 10), &water(), limit(25.0), 0, &Lines, &cancel);
    assert_eq!(none.tiles, Vec::<Vec2i>::new());
    let short = view.find_reversed_tiles_path(Vec2i::new(10, 10), Vec2i::new(20, 10), &water(), 5, &cancel);
    assert_eq!(short.tiles, Vec::<Vec2i>::new());
    let enough = view.find_reversed_tiles_path(Vec2i::new(10, 10), Vec2i::new(20, 10), &water(), 100, &cancel);
    assert_eq!(enough.tiles.len(), 10);
}

#[test]
fn found_path_goes_by_neighbours_over_walkable_tiles() {
    let rocks: Vec<(i32, i32)> = (5..=40).map(|y| (30, y)).collect();
    let (world, player) = lake(&rocks, (20, 20));
    let view = world.for_player(&player).unwrap();
    let cancel = AtomicBool::new(false);
    let src = Vec2i::new(20, 20);
    let dst = Vec2i::new(40, 20);
    let found = view.find_reversed_tiles_path(src, dst, &water(), 1000000, &cancel);
    assert!(!found.tiles.is_empty());
    assert_eq!(found.tiles[0], dst);
    assert!(adjacent(*found.tiles.last().unwrap(), src));
    for pair in found.tiles.windows(2) {
        assert!(adjacent(pair[0], pair[1]));
    }
    for tile in found.tiles.iter() {
        assert_eq!(view.get_tile(*tile), Some(WATER));
        for (dx, dy) in [(1, 0), (-1, 0), (0, 1), (0, -1)] {
            assert_ne!(view.get_tile(Vec2i::new(tile.x + dx, tile.y + dy)), Some(ROCK));
        }
    }
    assert!(found.tiles.iter().any(|tile| tile.y < 5 || tile.y > 40));
}

#[test]
fn shortened_path_ends_at_the_destination() {
    let (world, player) = lake(&[], (20, 20));
    let view = world.for_player(&player).unwrap();
    let cancel = AtomicBool::new(false);
    let straight = view.find_path(Vec2i::new(20, 20), Vec2i::new(40, 20), &water(), limit(25.0), 1000000, &Lines, &cancel);
    assert_eq!(straight.tiles, vec![Vec2i::new(40, 20)]);
    let far = view.find_path(Vec2i::new(20, 20), Vec2i::new(80, 20), &water(), limit(25.0), 1000000, &Lines, &cancel);
    assert_eq!(far.tiles.last(), Some(&Vec2i::new(80, 20)));
    assert!(far.tiles.len() >= 3);
    for pair in far.tiles.windows(2) {
        assert!((pair[1].x - pair[0].x).abs() <= 26);
    }
    let steps = view.find_path(Vec2i::new(20, 20), Vec2i::new(23, 20), &water(), limit(25.0), 1000000, &StepGeometry {}, &cancel);
    assert_eq!(steps.tiles, vec![Vec2i::new(23, 20)]);
}

#[test]
fn run_along_an_axis_is_clear_over_walkable_tiles() {
    let (world, player) = lake(&[(15, 10)], (10, 10));
    let view = world.for_player(&player).unwrap();
    let mut cache = TileCache::new();
    assert!(view.is_valid_run(&mut cache, Vec2i::new(10, 10), Vec2i::new(14, 10), &water(), 10));
    assert!(view.is_valid_run(&mut cache, Vec2i::new(10, 10), Vec2i::new(15, 10), &water(), 10));
    assert!(!view.is_valid_run(&mut cache, Vec2i::new(10, 10), Vec2i::new(16, 10), &water(), 10));
    assert!(!view.is_valid_run(&mut cache, Vec2i::new(10, 10), Vec2i::new(14, 10), &water(), 2));
    assert!(view.is_valid_run(&mut cache, Vec2i::new(10, 10), Vec2i::new(14, 10), &water(), 3));
    assert!(view.is_valid_run(&mut cache, Vec2i::new(10, 10), Vec2i::new(10, 2), &water(), 8));
    assert!(view.is_valid_run(&mut cache, Vec2i::new(10, 10), Vec2i::new(10, 10), &water(), -1));
    assert!(!view.is_valid_run(&mut cache, Vec2i::new(2, 2), Vec2i::new(-3, 2), &water(), 10));
    assert!(view.is_valid_shortcut(&mut cache, Vec2i::new(10, 10), Vec2i::new(14, 10), &water(), limit(10.0), &Lines));
    assert!(view.is_valid_shortcut(&mut cache, Vec2i::new(10, 10), Vec2i::new(14, 14), &water(), limit(10.0), &Lines));
    assert!(!view.is_valid_shortcut(&mut cache, Vec2i::new(10, 10), Vec2i::new(14, 14), &water(), limit(3.0), &Lines));
    assert!(!view.is_valid_shortcut(&mut cache, Vec2i::new(10, 10), Vec2i::new(14, 14), &water(), limit(10.0), &StepGeometry {}));
}

#[test]
fn line_is_clear_where_every_tile_and_corner_can_be_entered() {
    let (world, player) = lake(&[(11, 10)], (10, 10));
    let view = world.for_player(&player).unwrap();
    let mut cache = TileCache::new();
    assert!(view.walk_is_clear(&mut cache, &water(), &vec![]));
    assert!(view.walk_is_clear(&mut cache, &water(), &vec![Vec2i::new(10, 10), Vec2i::new(10, 11), Vec2i::new(11, 11)]));
    assert!(!view.walk_is_clear(&mut cache, &water(), &vec![Vec2i::new(10, 10), Vec2i::new(11, 10)]));
    assert!(!view.walk_is_clear(&mut cache, &water(), &vec![Vec2i::new(10, 10), Vec2i::new(11, 11)]));
    assert!(!view.walk_is_clear(&mut cache, &water(), &vec![Vec2i::new(10, 9), Vec2i::new(11, 10)]));
    assert!(view.walk_is_clear(&mut cache, &water(), &vec![Vec2i::new(-5, -5), Vec2i::new(-4, -4)]));
    assert_eq!(cache.lookup(&view, Vec2i::new(11, 10)), Some(ROCK));
    assert_eq!(cache.lookup(&view, Vec2i::new(-5, -5)), None);
}

#[test]
fn path_is_read_back_from_the_steps() {
    let mut steps: OrderedMap<Step> = OrderedMap::new();
    let a = Vec2i::new(1, 0);
    let b = Vec2i::new(2, 0);
    let c = Vec2i::new(3, 1);
    let src = Vec2i::new(0, 0);
    steps.insert(make_pos_key(a), Step { tile: a, prev: src });
    steps.insert(make_pos_key(b), Step { tile: b, prev: a });
    steps.insert(make_pos_key(c), Step { tile: c, prev: b });
    assert_eq!(reconstruct_path(src, c, &steps), vec![c, b, a]);
    assert_eq!(reconstruct_path(src, a, &steps), vec![a]);
    assert_eq!(reconstruct_path(src, Vec2i::new(9, 9), &steps), Vec::<Vec2i>::new());
    steps.insert(make_pos_key(a), Step { tile: a, prev: c });
    assert_eq!(reconstruct_path(src, c, &steps), Vec::<Vec2i>::new());
}

#[test]
fn step_geometry_walks_listed_tiles() {
    let geometry = StepGeometry {};
    let weights = geometry.weights(&vec![TileIdCost { id: 3, cost: 0 }, TileIdCost { id: 1, cost: 0 }]);
    assert!(weights.contains(1));
    assert!(weights.contains(3));
    assert!(!weights.contains(2));
    assert_eq!(weights.get(3), Some(1));
    assert_eq!(weights.get(2), None);
    assert_eq!(weights.extend(4, false, 1, 1), 6);
    assert_eq!(weights.extend(4, true, 1, 1), 7);
    assert!(weights.improves(3, None));
    assert!(weights.improves(3, Some(4)));
    assert!(!weights.improves(4, Some(4)));
    assert_eq!(weights.score(10, Vec2i::new(0, 0), Vec2i::new(3, -7)), 24);
    assert!(geometry.tile_is_far(Vec2i::new(1, 1), true, at_tile(1, 2)));
    assert!(!geometry.tile_is_far(Vec2i::new(1, 2), true, at_tile(1, 2)));
    assert_eq!(geometry.distance_score(Vec2i::new(5, 0), at_tile(1, 2)), 4);
    assert_eq!(geometry.walk(LineStart::TileCenter(Vec2i::new(0, 0)), Vec2i::new(2, 2), 0), (Vec::new(), false));
}

#[test]
fn thinned_path_goes_by_shortcuts_round_a_wall() {
    let rocks: Vec<(i32, i32)> = (5..=40).map(|y| (30, y)).collect();
    let (world, player) = lake(&rocks, (20, 20));
    let view = world.for_player(&player).unwrap();
    let cancel = AtomicBool::new(false);
    let src = Vec2i::new(20, 20);
    let dst = Vec2i::new(40, 20);
    let found = view.find_path(src, dst, &water(), limit(25.0), 1000000, &Lines, &cancel);
    assert!(found.tiles.len() >= 2);
    assert_eq!(found.tiles.last(), Some(&dst));
    let mut cache = TileCache::new();
    for pair in found.tiles.windows(2) {
        assert!(view.is_valid_shortcut(&mut cache, pair[0], pair[1], &water(), limit(25.0), &Lines));
    }
    for tile in found.tiles.iter() {
        assert_eq!(view.get_tile(*tile), Some(WATER));
    }
    assert!(!view.is_valid_shortcut(&mut cache, src, dst, &water(), limit(25.0), &Lines));
    assert!(!view.is_valid_shortcut(&mut cache, Vec2i::new(20, 3), Vec2i::new(60, 3), &water(), limit(25.0), &Lines));
    assert!(view.is_valid_shortcut(&mut cache, Vec2i::new(20, 3), Vec2i::new(40, 3), &water(), limit(25.0), &Lines));
}

#[test]
fn points_within_reach_are_dropped_from_the_way() {
    let (world, player) = lake(&[], (10, 10));
    let view = world.for_player(&player).unwrap();
    let geometry = StepGeometry {};
    let weights = geometry.weights(&vec![TileIdCost { id: WATER, cost: 0 }]);
    let way = vec![Vec2i::new(10, 10), Vec2i::new(11, 10), Vec2i::new(12, 10)];
    assert_eq!(
        consume_path(&view, &mut TileCache::new(), &geometry, &weights, &way, 3.0f64.to_bits(), true),
        vec![Vec2i::new(11, 10), Vec2i::new(12, 10)]
    );
    let there = vec![Vec2i::new(10, 10)];
    assert_eq!(consume_path(&view, &mut TileCache::new(), &geometry, &weights, &there, 3.0f64.to_bits(), true), Vec::<Vec2i>::new());
    let away = vec![Vec2i::new(12, 10), Vec2i::new(10, 10)];
    assert_eq!(consume_path(&view, &mut TileCache::new(), &geometry, &weights, &away, 3.0f64.to_bits(), false), away);
    let near = vec![Vec2i::new(11, 10), Vec2i::new(12, 10), Vec2i::new(40, 10)];
    assert_eq!(
        consume_path(&view, &mut TileCache::new(), &Lines, &water(), &near, 3.0f64.to_bits(), true),
        vec![Vec2i::new(12, 10), Vec2i::new(40, 10)]
    );
}

#[test]
fn first_tile_to_go_straight_to_is_the_one_nearest_the_goal() {
    let (world, player) = lake(&[(15, 10)], (10, 10));
    let view = world.for_player(&player).unwrap();
    let mut cache = TileCache::new();
    let way = vec![Vec2i::new(20, 10), Vec2i::new(14, 10), Vec2i::new(12, 10), Vec2i::new(11, 10)];
    let from = Vec2i::new(10, 10);
    assert_eq!(view.find_first_straight(&mut cache, &way, from, 3, &water(), limit(25.0), &Lines), 1);
    assert_eq!(view.find_first_straight(&mut cache, &way, from, 1, &water(), limit(25.0), &Lines), 1);
    assert_eq!(view.find_first_straight(&mut cache, &way, from, 0, &water(), limit(25.0), &Lines), 0);
    assert_eq!(view.find_first_straight(&mut cache, &way, from, 3, &water(), limit(1.0), &Lines), 2);
    assert_eq!(view.find_first_straight(&mut cache, &way, from, 3, &water(), limit(0.0), &Lines), 3);
    let chain = vec![Vec2i::new(14, 10), Vec2i::new(13, 10), Vec2i::new(12, 10), Vec2i::new(11, 10)];
    let thinned = view.shorten_reversed_tiles_path(&mut cache, chain.clone(), &water(), limit(25.0), &Lines);
    assert_eq!(thinned, vec![Vec2i::new(14, 10)]);
    let by_steps = view.shorten_reversed_tiles_path(&mut cache, chain, &water(), limit(1.0), &Lines);
    assert_eq!(by_steps, vec![Vec2i::new(13, 10), Vec2i::new(14, 10)]);
}
