use std::collections::BTreeMap;
use std::sync::atomic::AtomicBool;

use hafen_bot::actions::{MoveItem, OpenBelt, PutItem, TakeItem, UseItem};
use hafen_bot::drinker::{find_container_with_content, ContentConfig, Drinker, DrinkerConfig};
use hafen_bot::exp_wnd_closer::ExpWndCloser;
use hafen_bot::explorer::{sort_by_rank, Explorer, Ranked};
use hafen_bot::geometry::{Geometry, StepGeometry, TileIdCost};
use hafen_bot::grid::TileSet;
use hafen_bot::map_db::NoMapDb;
use hafen_bot::new_character::{NewCharacter, NewCharacterParams, State};
use hafen_bot::path::{LineStart, LineWalker, ShortcutLimit, TileWeights};
use hafen_bot::path_finder::{get_tile_costs, PathFinder, PathFinderConfig};
use hafen_bot::player::{EquipmentConfig, ItemsConfig, MetersConfig, Player, PlayerConfig};
use hafen_bot::process::{emit, process_update, push_unless_repeated};
use hafen_bot::protocol::{
    contains_str, starts_with, str_equal, Button, Event, MapGrid, Message, Modifier, Update,
    Value, Vec2f, WorldPos,
};
use hafen_bot::session::{make_task, Session, SessionConfig, TaskConfigs, TaskKind};
use hafen_bot::task::{Task, TaskContext};
use hafen_bot::vec2::Vec2i;
use hafen_bot::world::{TileCost, World, WorldConfig};

const SECOND: u64 = 1_000_000_000;

struct FloatWeights(BTreeMap<i32, f64>);

impl TileSet for FloatWeights {
    fn has(&self, tile: i32) -> bool {
        self.0.contains_key(&tile)
    }

    fn contains(&self, tile: i32) -> bool {
        self.0.contains_key(&tile)
    }
}

impl TileWeights for FloatWeights {
    type Cost = f64;

    fn cost_of(&self, tile: i32) -> Option<f64> {
        self.get(tile)
    }

    fn no_cost(&self) -> f64 {
        self.start()
    }

    fn cost_with(&self, so_far: f64, diagonal: bool, from: f64, to: f64) -> f64 {
        self.extend(so_far, diagonal, from, to)
    }

    fn prefers(&self, new: f64, known: Option<f64>) -> bool {
        self.improves(new, known)
    }

    fn rank_of(&self, cost: f64, tile: Vec2i, goal: Vec2i) -> i32 {
        self.score(cost, tile, goal)
    }

    fn get(&self, tile: i32) -> Option<f64> {
        self.0.get(&tile).copied()
    }

    fn start(&self) -> f64 {
        0.0
    }

    fn extend(&self, so_far: f64, diagonal: bool, from: f64, to: f64) -> f64 {
        let distance = if diagonal { std::f64::consts::SQRT_2 } else { 1.0 };
        so_far + distance * (from + to) / 2.0
    }

    fn improves(&self, new: f64, known: Option<f64>) -> bool {
        new < known.unwrap_or(f64::MAX)
    }

    fn score(&self, cost: f64, tile: Vec2i, goal: Vec2i) -> i32 {
        let dx = goal.x as f64 - tile.x as f64;
        let dy = goal.y as f64 - tile.y as f64;
        ((cost + (dx * dx + dy * dy).sqrt()) * 100000.0).round() as i32
    }
}

struct Floats;

fn point_distance(ax: f64, ay: f64, bx: f64, by: f64) -> f64 {
    ((ax - bx) * (ax - bx) + (ay - by) * (ay - by)).sqrt()
}

impl LineWalker for Floats {
    fn line_len(&self, from: LineStart, to: Vec2i, max_length: u64) -> usize {
        self.walk(from, to, max_length).0.len()
    }

    fn line_tile(&self, from: LineStart, to: Vec2i, max_length: u64, k: usize) -> Vec2i {
        self.walk(from, to, max_length).0[k]
    }

    fn line_complete(&self, from: LineStart, to: Vec2i, max_length: u64) -> bool {
        self.walk(from, to, max_length).1
    }

    fn walk(&self, from: LineStart, to: Vec2i, max_length: u64) -> (Vec<Vec2i>, bool) {
        let (sx, sy) = match from {
            LineStart::TileCenter(tile) => (tile.x as f64 + 0.5, tile.y as f64 + 0.5),
            LineStart::Point(point) => (f64::from_bits(point.x) / 11.0, f64::from_bits(point.y) / 11.0),
        };
        let (ex, ey) = (to.x as f64 + 0.5, to.y as f64 + 0.5);
        let limit = f64::from_bits(max_length);
        let samples = (point_distance(sx, sy, ex, ey) * 4.0).ceil().max(1.0) as i32;
        let mut visited: Vec<Vec2i> = Vec::new();
        for sample in 0..=samples {
            let part = sample as f64 / samples as f64;
            let x = sx + (ex - sx) * part;
            let y = sy + (ey - sy) * part;
            let tile = Vec2i::new(x.floor() as i32, y.floor() as i32);
            if visited.last() == Some(&tile) {
                continue;
            }
            if point_distance(sx, sy, tile.x as f64, tile.y as f64) > limit {
                return (visited, false);
            }
            visited.push(tile);
        }
        (visited, true)
    }
}

impl Geometry for Floats {
    type Weights = FloatWeights;

    fn weights(&self, costs: &Vec<TileIdCost>) -> FloatWeights {
        FloatWeights(costs.iter().map(|v| (v.id, f64::from_bits(v.cost))).collect())
    }

    fn far(&self, tile_pos: Vec2i, middle: bool, from: WorldPos) -> bool {
        self.tile_is_far(tile_pos, middle, from)
    }

    fn map_far(&self, map_pos: Vec2i, from: WorldPos, limit: u64) -> bool {
        self.map_pos_is_far(map_pos, from, limit)
    }

    fn rank(&self, tile_pos: Vec2i, from: WorldPos) -> i32 {
        self.distance_score(tile_pos, from)
    }

    fn tile_is_far(&self, tile_pos: Vec2i, middle: bool, from: WorldPos) -> bool {
        let shift = if middle { 0.5 } else { 0.0 };
        let x = (tile_pos.x as f64 + shift) * 11.0;
        let y = (tile_pos.y as f64 + shift) * 11.0;
        point_distance(x, y, f64::from_bits(from.point.x), f64::from_bits(from.point.y)) > (2.0f64 * 11.0).sqrt()
    }

    fn map_pos_is_far(&self, map_pos: Vec2i, from: WorldPos, limit: u64) -> bool {
        let resolution = 11.0 / 1024.0;
        let x = (map_pos.x as f64 + 0.5) * resolution;
        let y = (map_pos.y as f64 + 0.5) * resolution;
        point_distance(x, y, f64::from_bits(from.point.x), f64::from_bits(from.point.y)) > f64::from_bits(limit)
    }

    fn distance_score(&self, tile_pos: Vec2i, from: WorldPos) -> i32 {
        let x = (tile_pos.x as f64 + 0.5) * 11.0;
        let y = (tile_pos.y as f64 + 0.5) * 11.0;
        (point_distance(x, y, f64::from_bits(from.point.x), f64::from_bits(from.point.y)) * 100000.0).round() as i32
    }
}

fn player_config() -> PlayerConfig {
    PlayerConfig {
        meters: MetersConfig { stamina: String::from("gfx/hud/meter/stam") },
        equipment: EquipmentConfig { belt: 5 },
        items: ItemsConfig {
            content: String::from("ui/tt/cont"),
            content_name: String::from("ui/tt/cn"),
            quality: String::from("ui/tt/q/quality"),
        },
    }
}

fn drinker_config() -> DrinkerConfig {
    DrinkerConfig {
        open_belt_timeout: SECOND,
        sip_timeout: SECOND,
        max_stamina: 100,
        stamina_threshold: 90,
        liquid_containers: vec![String::from("gfx/invobjs/waterskin")],
        contents: vec![
            ContentConfig { name: String::from("Tea"), action: String::from("Sip"), wait_interval: 2 * SECOND },
            ContentConfig { name: String::from("Water"), action: String::from("Drink"), wait_interval: 3 * SECOND },
        ],
    }
}

fn session_config() -> SessionConfig {
    SessionConfig {
        world: WorldConfig {
            water_tiles: vec![
                TileCost { name: String::from("gfx/tiles/water"), cost: 3.0f64.to_bits() },
                TileCost { name: String::from("gfx/tiles/deep"), cost: 1.0f64.to_bits() },
            ],
            ice_tiles: vec![TileCost { name: String::from("gfx/tiles/ice"), cost: 1.0f64.to_bits() }],
            report_iterations: 1000,
        },
        player: player_config(),
        tasks: TaskConfigs {
            path_finder: PathFinderConfig {
                find_path_max_shortcut_length: ShortcutLimit { steps: 25, length: 25.0f64.to_bits() },
                find_path_max_iterations: 1000000,
                max_next_point_shortcut_length: 50.0f64.to_bits(),
            },
            drinker: drinker_config(),
        },
    }
}

fn at(x: f64, y: f64) -> WorldPos {
    WorldPos {
        point: Vec2f { x: x.to_bits(), y: y.to_bits() },
        tile: Vec2i::new((x / 11.0).floor() as i32, (y / 11.0).floor() as i32),
        map_pos: Vec2i::new((x / (11.0 / 1024.0)).floor() as i32, (y / (11.0 / 1024.0)).floor() as i32),
    }
}

fn text(value: &str) -> Value {
    Value::Str { value: String::from(value) }
}

fn number(value: i32) -> Value {
    Value::Int { value }
}

fn coord(x: i32, y: i32) -> Value {
    Value::Coord { value: Vec2i::new(x, y) }
}

fn new_widget(id: i32, kind: &str, parent: i32, pargs: Vec<Value>, cargs: Vec<Value>) -> Event {
    Event::NewWidget { id, kind: String::from(kind), parent, pargs, cargs }
}

fn ui_message(id: i32, msg: &str, args: Vec<Value>) -> Event {
    Event::UIMessage { id, msg: String::from(msg), args }
}

fn widget_message(sender: i32, kind: &str, arguments: Vec<Value>) -> Message {
    Message::WidgetMessage { sender, kind: String::from(kind), arguments }
}

fn done(task: &str) -> Message {
    Message::Done { task: String::from(task) }
}

fn tooltip(name: &str) -> Vec<Value> {
    vec![
        Value::Nil,
        Value::Nil,
        Value::List {
            value: vec![
                number(200),
                Value::List {
                    value: vec![
                        Value::List { value: vec![number(201), text(name)] },
                        Value::List { value: vec![number(202), Value::Float32 { value: 10.0f32.to_bits() }] },
                    ],
                },
            ],
        },
    ]
}

fn lake_events() -> Vec<Event> {
    vec![
        Event::MapTile { id: 1, version: 1, name: String::from("gfx/tiles/water"), color: 0 },
        Event::MapTile { id: 2, version: 1, name: String::from("gfx/tiles/deep"), color: 0 },
        Event::MapTile { id: 3, version: 1, name: String::from("gfx/tiles/grass"), color: 0 },
        Event::ResourceAdd { id: 100, version: 1, name: String::from("gfx/hud/meter/stam") },
        Event::ResourceAdd { id: 200, version: 1, name: String::from("ui/tt/cont") },
        Event::ResourceAdd { id: 201, version: 1, name: String::from("ui/tt/cn") },
        Event::ResourceAdd { id: 202, version: 1, name: String::from("ui/tt/q/quality") },
        Event::ResourceAdd { id: 300, version: 1, name: String::from("gfx/invobjs/waterskin") },
        new_widget(6, "gameui", 0, vec![], vec![text("Jorb"), number(42)]),
        new_widget(7, "mapview", 6, vec![], vec![]),
        new_widget(33, "im", 6, vec![], vec![number(100)]),
        new_widget(8, "epry", 6, vec![], vec![]),
        new_widget(9, "item", 8, vec![number(5)], vec![number(400)]),
        new_widget(10, "inv", 6, vec![text("inv")], vec![]),
        new_widget(11, "wnd", 6, vec![], vec![Value::Nil, text("Belt")]),
        Event::AddWidget { id: 11, parent: 6, pargs: vec![number(0), number(0), Value::List { value: vec![text("id"), text("toolbelt")] }] },
        new_widget(12, "inv", 11, vec![], vec![]),
        new_widget(13, "item", 12, vec![coord(0, 0)], vec![number(300)]),
        ui_message(13, "tt", tooltip("Water")),
        ui_message(33, "set", vec![Value::Nil, number(80)]),
        Event::MapGridAdd { grid: MapGrid { id: 1, position: Vec2i::new(0, 0), heights: vec![0; 10000], tiles: vec![1; 10000] }, neighbours: vec![] },
        Event::GobAdd { id: 42, position: at(225.5, 225.5), angle: 0, name: None },
    ]
}

fn lake() -> (World<NoMapDb>, Player) {
    let mut world = World::new(session_config().world, NoMapDb {});
    let mut player = Player::new(player_config());
    let mut count = 0;
    for event in lake_events() {
        count += 1;
        let update = Update { session: 1, number: count, event };
        player.update(world.objects(), &update, 0);
        world.update(update);
    }
    (world, player)
}

fn lake_session() -> Session<NoMapDb> {
    let mut session = Session::new(1, NoMapDb {}, session_config());
    let mut count = 0;
    for event in lake_events() {
        count += 1;
        session.update(Update { session: 1, number: count, event }, None, 0);
    }
    session
}

fn update(event: Event) -> Update {
    Update { session: 1, number: 1, event }
}

#[test]
fn strings_are_compared_by_characters() {
    assert!(str_equal("inv", "inv"));
    assert!(!str_equal("inv", "invx"));
    assert!(!str_equal("inv", "ins"));
    assert!(starts_with("ui/expwnd:12", "ui/expwnd:"));
    assert!(!starts_with("ui/exp", "ui/expwnd:"));
    assert!(starts_with("abc", ""));
    assert!(contains_str("Fresh Water", "Water"));
    assert!(contains_str("Water", "Water"));
    assert!(!contains_str("Wate", "Water"));
    assert!(contains_str("anything", ""));
}

#[test]
fn values_and_messages_are_compared_deeply() {
    let list = Value::List { value: vec![number(1), text("a"), Value::List { value: vec![coord(1, 2)] }] };
    assert!(list.equals(&list.clone()));
    assert!(!list.equals(&Value::List { value: vec![number(1), text("a"), Value::List { value: vec![coord(1, 3)] }] }));
    assert!(!list.equals(&Value::Nil));
    assert!(list.is_str_pair("x", "y") == false);
    assert!(Value::List { value: vec![text("id"), text("toolbelt")] }.is_str_pair("id", "toolbelt"));
    assert!(widget_message(1, "a", vec![number(1)]).equals(&widget_message(1, "a", vec![number(1)])));
    assert!(!widget_message(1, "a", vec![number(1)]).equals(&widget_message(1, "a", vec![number(2)])));
    assert!(!done("a").equals(&done("b")));
    assert!(done("a").is_done());
    assert!(!Message::GetSessionData.is_done());
    assert_eq!(Button::RightClick.code(), 3);
    assert_eq!(Modifier::Alt.code(), 4);
    assert_eq!(
        Message::click(7, Vec2i::new(3, 4), Button::LeftClick, Modifier::Unmodified),
        widget_message(7, "click", vec![coord(0, 0), coord(3, 4), number(1), number(0)])
    );
}

#[test]
fn take_item_takes_the_item_from_its_place() {
    let (world, player) = lake();
    let view = world.for_player(&player).unwrap();
    let mut take = TakeItem::new(13, SECOND);
    assert_eq!(take.get_next_message(&view, 5), Some(widget_message(13, "take", vec![coord(0, 0)])));
    assert_eq!(take.get_next_message(&view, 5 + SECOND - 1), None);
    assert_eq!(take.get_next_message(&view, 5 + SECOND), Some(widget_message(13, "take", vec![coord(0, 0)])));
    take.update(6, &new_widget(50, "item", 6, vec![text("hand")], vec![number(300)]));
    assert_eq!(take.new_item_id(), None);
    take.update(6, &new_widget(50, "item", 6, vec![text("hand"), coord(0, 0)], vec![number(300)]));
    assert_eq!(take.new_item_id(), Some(50));
    assert_eq!(take.get_next_message(&view, 9), Some(done("TakeItem")));
    let mut missing = TakeItem::new(99, SECOND);
    assert_eq!(missing.get_next_message(&view, 0), Some(Message::Error { message: String::from("item is not found") }));
}

#[test]
fn put_item_needs_an_item_in_the_hand() {
    let (mut world, mut player) = lake();
    {
        let view = world.for_player(&player).unwrap();
        let mut put = PutItem::new(10, Vec2i::new(1, 1), SECOND);
        assert_eq!(put.get_next_message(&view, 0), Some(Message::Error { message: String::from("player hand is empty") }));
    }
    let hand = Update { session: 1, number: 100, event: new_widget(50, "item", 6, vec![text("hand")], vec![number(300)]) };
    player.update(world.objects(), &hand, 0);
    world.update(hand);
    let view = world.for_player(&player).unwrap();
    let mut put = PutItem::new(10, Vec2i::new(1, 1), SECOND);
    assert_eq!(put.get_next_message(&view, 0), Some(widget_message(10, "drop", vec![coord(1, 1)])));
    assert_eq!(put.get_next_message(&view, 1), None);
    put.update(&new_widget(51, "item", 10, vec![coord(1, 2), number(0)], vec![]));
    assert_eq!(put.new_item_id(), None);
    put.update(&new_widget(51, "item", 10, vec![coord(1, 1), number(0)], vec![]));
    assert_eq!(put.new_item_id(), Some(51));
    assert_eq!(put.get_next_message(&view, 2), Some(done("PutItem")));
}

#[test]
fn move_item_takes_then_puts() {
    let (mut world, mut player) = lake();
    let mut moving = MoveItem::new(13, 10, Vec2i::new(2, 2), SECOND);
    {
        let view = world.for_player(&player).unwrap();
        assert_eq!(moving.get_next_message(&view, 0), Some(widget_message(13, "take", vec![coord(0, 0)])));
    }
    let hand = new_widget(50, "item", 6, vec![text("hand"), coord(0, 0)], vec![number(300)]);
    moving.update(6, &hand);
    let taken = Update { session: 1, number: 100, event: hand };
    player.update(world.objects(), &taken, 0);
    world.update(taken);
    let view = world.for_player(&player).unwrap();
    assert_eq!(moving.new_item_id(), None);
    assert_eq!(moving.get_next_message(&view, 1), Some(widget_message(10, "drop", vec![coord(2, 2)])));
    moving.update(6, &new_widget(51, "item", 10, vec![coord(2, 2), number(0)], vec![]));
    assert_eq!(moving.new_item_id(), Some(51));
    assert_eq!(moving.get_next_message(&view, 2), Some(done("PutItem")));
}

#[test]
fn use_item_chooses_the_action_from_the_menu() {
    let mut sip = UseItem::new(13, String::from("Sip"), SECOND);
    assert_eq!(sip.item_id(), 13);
    assert_eq!(sip.get_next_message(0), Some(Message::LockWidget { value: String::from("sm") }));
    assert_eq!(sip.get_next_message(0), Some(widget_message(13, "iact", vec![coord(0, 0), number(0)])));
    assert_eq!(sip.get_next_message(SECOND - 1), None);
    assert_eq!(sip.get_next_message(SECOND), Some(widget_message(13, "iact", vec![coord(0, 0), number(0)])));
    sip.update(&update(new_widget(38, "sm", 65536, vec![], vec![text("Drink"), text("Sip"), text("Empty")])));
    assert_eq!(sip.get_next_message(SECOND), None);
    sip.update(&update(Event::AddWidget { id: 37, parent: 0, pargs: vec![] }));
    assert_eq!(sip.get_next_message(SECOND), None);
    sip.update(&update(Event::AddWidget { id: 38, parent: 0, pargs: vec![] }));
    assert_eq!(sip.get_next_message(SECOND), Some(widget_message(38, "cl", vec![number(1), number(0)])));
    assert_eq!(sip.get_next_message(SECOND + 1), None);
    sip.update(&update(ui_message(38, "cancel", vec![])));
    assert_eq!(sip.get_next_message(SECOND + 1), Some(widget_message(13, "iact", vec![coord(0, 0), number(0)])));
    sip.update(&update(new_widget(39, "sm", 65536, vec![], vec![text("Sip")])));
    sip.update(&update(Event::AddWidget { id: 39, parent: 0, pargs: vec![] }));
    assert_eq!(sip.get_next_message(2 * SECOND), Some(widget_message(39, "cl", vec![number(0), number(0)])));
    sip.update(&update(ui_message(39, "act", vec![])));
    assert_eq!(sip.get_next_message(2 * SECOND), Some(done("UseItem")));
    sip.update(&update(ui_message(39, "cancel", vec![])));
    assert_eq!(sip.get_next_message(3 * SECOND), Some(done("UseItem")));
}

#[test]
fn open_belt_clicks_the_belt_until_its_window_is_open() {
    let mut world = World::new(session_config().world, NoMapDb {});
    let mut player = Player::new(player_config());
    let mut count = 0;
    let mut feed = |world: &mut World<NoMapDb>, player: &mut Player, event: Event| {
        count += 1;
        let update = Update { session: 1, number: count, event };
        player.update(world.objects(), &update, 0);
        world.update(update);
    };
    for event in lake_events() {
        let skip = match &event {
            Event::AddWidget { id: 11, .. } => true,
            Event::NewWidget { id: 9, .. } => true,
            _ => false,
        };
        if !skip {
            feed(&mut world, &mut player, event);
        }
    }
    let mut open = OpenBelt::new(SECOND);
    assert_eq!(
        open.get_next_message(&world.for_player(&player).unwrap(), 0),
        Some(Message::Error { message: String::from("belt item is not found") })
    );
    feed(&mut world, &mut player, new_widget(9, "item", 8, vec![number(5)], vec![number(400)]));
    assert_eq!(
        open.get_next_message(&world.for_player(&player).unwrap(), 0),
        Some(widget_message(9, "iact", vec![coord(0, 0), number(0)]))
    );
    assert_eq!(open.get_next_message(&world.for_player(&player).unwrap(), 1), None);
    feed(&mut world, &mut player, Event::AddWidget { id: 11, parent: 6, pargs: vec![number(0), number(0), Value::List { value: vec![text("id"), text("toolbelt")] }] });
    assert_eq!(open.get_next_message(&world.for_player(&player).unwrap(), 2), Some(done("OpenBelt")));
    assert_eq!(open.widget_id, Some(11));
    feed(&mut world, &mut player, Event::Destroy { id: 11 });
    assert_eq!(open.get_next_message(&world.for_player(&player).unwrap(), 3), None);
    assert_eq!(
        open.get_next_message(&world.for_player(&player).unwrap(), SECOND),
        Some(widget_message(9, "iact", vec![coord(0, 0), number(0)]))
    );
}

#[test]
fn exp_wnd_closer_closes_each_window_once() {
    let mut closer = ExpWndCloser::new();
    assert_eq!(closer.next_message(), None);
    closer.on_event(&new_widget(20, "ui/expwnd:3", 6, vec![], vec![]));
    closer.on_event(&new_widget(21, "wnd", 6, vec![], vec![]));
    closer.on_event(&new_widget(22, "ui/expwnd:4", 6, vec![], vec![]));
    assert_eq!(closer.next_message(), Some(widget_message(20, "close", vec![])));
    assert_eq!(closer.next_message(), Some(widget_message(22, "close", vec![])));
    assert_eq!(closer.next_message(), None);
    closer.on_event(&Event::Destroy { id: 20 });
    closer.on_event(&Event::WidgetMessage { id: 22, msg: String::from("close"), args: vec![] });
    assert_eq!((closer.exp_wnd_ids.len(), closer.closed.len()), (0, 0));
    closer.on_event(&new_widget(20, "ui/expwnd:3", 6, vec![], vec![]));
    assert_eq!(closer.next_message(), Some(widget_message(20, "close", vec![])));
    let (mut world, mut player) = lake();
    let window = Update { session: 1, number: 100, event: new_widget(60, "ui/expwnd:9", 6, vec![], vec![]) };
    player.update(world.objects(), &window, 0);
    world.update(window);
    let mut restored = ExpWndCloser::new();
    restored.restore(&world.for_player(&player).unwrap());
    assert_eq!(restored.exp_wnd_ids, vec![60]);
    assert_eq!(restored.name(), String::from("ExpWndCloser"));
}

#[test]
fn new_character_walks_to_the_first_point_of_its_way() {
    let (world, player) = lake();
    let view = world.for_player(&player).unwrap();
    let cancel = AtomicBool::new(false);
    let context = TaskContext { now: 0, geometry: &Floats, cancel: &cancel };
    let mut task = NewCharacter::new(NewCharacterParams { character_name: String::from("Noexcept") });
    assert_eq!(
        task.next_message(&view, &context),
        Some(widget_message(7, "click", vec![coord(0, 0), coord(-924781, -941823), number(1), number(0)]))
    );
    assert_eq!(task.state, State::FindNameChanger);
    task.on_event(&new_widget(70, "wnd", 6, vec![], vec![Value::Nil, text("Other")]));
    assert_eq!(task.change_name_window_id, None);
    task.on_event(&new_widget(70, "wnd", 6, vec![], vec![Value::Nil, text("Change Name")]));
    task.on_event(&new_widget(71, "text", 6, vec![], vec![]));
    assert_eq!(task.change_name_text_id, None);
    task.on_event(&new_widget(71, "text", 70, vec![], vec![]));
    assert_eq!(task.next_message(&view, &context), Some(Message::UIMessage { id: 71, kind: String::from("settext"), arguments: vec![text("Noexcept")] }));
    assert_eq!(task.next_message(&view, &context), None);
    task.on_event(&ui_message(71, "settext", vec![]));
    assert_eq!(task.state, State::HasName);
    assert_eq!(task.next_message(&view, &context), None);
}

#[test]
fn new_character_clicks_on_the_name_changer_in_sight() {
    let (mut world, mut player) = lake();
    let seen = Update { session: 1, number: 100, event: Event::GobAdd { id: 77, position: at(100.0, 200.0), angle: 0, name: Some(String::from("gfx/borka/body")) } };
    player.update(world.objects(), &seen, 0);
    world.update(seen);
    let view = world.for_player(&player).unwrap();
    let cancel = AtomicBool::new(false);
    let context = TaskContext { now: 0, geometry: &Floats, cancel: &cancel };
    let mut task = NewCharacter::new(NewCharacterParams { character_name: String::from("Noexcept") });
    let map_pos = at(100.0, 200.0).map_pos;
    assert_eq!(
        task.next_message(&view, &context),
        Some(widget_message(7, "click", vec![
            coord(0, 0), Value::Coord { value: map_pos }, number(3), number(0), number(0),
            number(77), Value::Coord { value: map_pos }, number(0), number(0),
        ]))
    );
    assert_eq!(task.state, State::WaitForChangeNameTextId);
    assert_eq!(task.next_message(&view, &context), None);
}

#[test]
fn tiles_belong_to_the_family_that_names_them() {
    let config = session_config().world;
    assert_eq!(get_tile_costs(&String::from("gfx/tiles/ice"), &config).map(|v| v.len()), Some(1));
    assert_eq!(get_tile_costs(&String::from("gfx/tiles/deep"), &config).map(|v| v.len()), Some(2));
    assert_eq!(get_tile_costs(&String::from("gfx/tiles/grass"), &config).map(|v| v.len()), None);
}

#[test]
fn path_finder_walks_to_the_clicked_tile() {
    let (mut world, mut player) = lake();
    let cancel = AtomicBool::new(false);
    let mut task = PathFinder::new(session_config().tasks.path_finder);
    {
        let view = world.for_player(&player).unwrap();
        let context = TaskContext { now: 0, geometry: &Floats, cancel: &cancel };
        assert_eq!(task.next_message(&view, &context), None);
        task.on_event(7, &Event::WidgetMessage { id: 7, msg: String::from("click"), args: vec![coord(0, 0), coord(60 * 1024 + 7, 20 * 1024 + 9), number(1), number(0)] });
        assert_eq!(task.destination, None);
        task.on_event(8, &Event::WidgetMessage { id: 7, msg: String::from("click"), args: vec![coord(0, 0), coord(60 * 1024 + 7, 20 * 1024 + 9), number(1), number(4)] });
        assert_eq!(task.destination, None);
        task.on_event(7, &Event::WidgetMessage { id: 7, msg: String::from("click"), args: vec![coord(0, 0), coord(60 * 1024 + 7, 20 * 1024 + 9), number(1), number(4)] });
        assert_eq!(task.destination, Some(Vec2i::new(60, 20)));
    }
    let mut ticks = 0;
    let mut count = 1000;
    loop {
        ticks += 1;
        assert!(ticks <= 10);
        let message = {
            let view = world.for_player(&player).unwrap();
            let context = TaskContext { now: 0, geometry: &Floats, cancel: &cancel };
            task.next_message(&view, &context)
        };
        match message {
            Some(Message::Done { task }) => {
                assert_eq!(task, String::from("PathFinder"));
                break;
            }
            Some(Message::WidgetMessage { sender, kind, arguments }) => {
                assert_eq!((sender, kind.as_str(), arguments.len()), (7, "click", 4));
                let target = match &arguments[1] {
                    Value::Coord { value } => *value,
                    _ => panic!("a click without a place"),
                };
                assert_eq!(arguments[2], number(1));
                assert_eq!(arguments[3], number(0));
                let resolution = 11.0 / 1024.0;
                let position = at((target.x as f64 + 0.5) * resolution, (target.y as f64 + 0.5) * resolution);
                count += 1;
                let moved = Update { session: 1, number: count, event: Event::GobMove { id: 42, position, angle: 0 } };
                player.update(world.objects(), &moved, 0);
                world.update(moved);
            }
            other => panic!("unexpected message {:?}", other),
        }
    }
    assert_eq!(world.for_player(&player).unwrap().player_position().tile, Vec2i::new(60, 20));
    assert_eq!(task.destination, None);
}

#[test]
fn path_finder_gives_up_a_destination_out_of_its_family() {
    let (mut world, mut player) = lake();
    let grass = Update { session: 1, number: 100, event: Event::MapGridUpdate { grid: MapGrid { id: 1, position: Vec2i::new(0, 0), heights: vec![0; 10000], tiles: {
        let mut tiles = vec![1; 10000];
        tiles[60 + 20 * 100] = 3;
        tiles
    } } } };
    player.update(world.objects(), &grass, 0);
    world.update(grass);
    let view = world.for_player(&player).unwrap();
    let cancel = AtomicBool::new(false);
    let context = TaskContext { now: 0, geometry: &Floats, cancel: &cancel };
    let mut task = PathFinder::new(session_config().tasks.path_finder);
    task.destination = Some(Vec2i::new(60, 20));
    assert_eq!(task.next_message(&view, &context), None);
    assert_eq!(task.destination, None);
    task.destination = Some(Vec2i::new(500, 500));
    assert_eq!(task.next_message(&view, &context), None);
    assert_eq!(task.destination, Some(Vec2i::new(500, 500)));
}

#[test]
fn ranks_are_sorted_in_rising_order() {
    let items = vec![
        Ranked { tile: Vec2i::new(0, 0), rank: 5 },
        Ranked { tile: Vec2i::new(1, 0), rank: 1 },
        Ranked { tile: Vec2i::new(2, 0), rank: 5 },
        Ranked { tile: Vec2i::new(3, 0), rank: -2 },
    ];
    assert_eq!(sort_by_rank(&items).iter().map(|v| v.tile.x).collect::<Vec<_>>(), vec![3, 1, 0, 2]);
    assert_eq!(sort_by_rank(&Vec::new()), Vec::<Ranked>::new());
}

#[test]
fn explorer_walks_to_the_border() {
    let (world, player) = lake();
    let view = world.for_player(&player).unwrap();
    let cancel = AtomicBool::new(false);
    let context = TaskContext { now: 0, geometry: &Floats, cancel: &cancel };
    let mut task = Explorer::new();
    let message = task.next_message(&view, &context);
    assert_eq!(task.border_tiles.len(), 2);
    let target = task.tile_pos_path[0];
    assert_eq!(
        message,
        Some(widget_message(7, "click", vec![coord(0, 0), coord(target.x * 1024 + 512, target.y * 1024 + 512), number(1), number(0)]))
    );
    let steps = TaskContext { now: 0, geometry: &StepGeometry {}, cancel: &cancel };
    let mut plain = Explorer::new();
    assert!(plain.next_message(&view, &steps).is_some());
}

#[test]
fn drink_is_found_in_the_belt() {
    let (world, player) = lake();
    let view = world.for_player(&player).unwrap();
    let config = drinker_config();
    let found = find_container_with_content(&view, &config.liquid_containers, &config.contents).unwrap();
    assert_eq!((found.item_id, found.content), (13, 1));
    assert!(find_container_with_content(&view, &vec![String::from("gfx/invobjs/bucket")], &config.contents).is_none());
    assert!(find_container_with_content(&view, &config.liquid_containers, &vec![]).is_none());
}

#[test]
fn drinker_sips_until_stamina_is_full() {
    let mut session = lake_session();
    let cancel = AtomicBool::new(false);
    let mut outbound: Vec<Message> = Vec::new();
    let mut count = 1000;
    let mut turn = |session: &mut Session<NoMapDb>, outbound: &mut Vec<Message>, event: Event, now: u64| {
        count += 1;
        let context = TaskContext { now, geometry: &Floats, cancel: &cancel };
        assert!(process_update(session, outbound, Update { session: 1, number: count, event }, None, None, &context));
    };
    turn(&mut session, &mut outbound, Event::TaskAdd { name: String::from("Drinker"), params: vec![] }, 0);
    assert_eq!(outbound, vec![
        Message::UIMessage { id: 6, kind: String::from("add-task"), arguments: vec![Value::Long { value: 1 }, text("Drinker"), Value::Bytes { value: vec![] }] },
        Message::LockWidget { value: String::from("sm") },
    ]);
    turn(&mut session, &mut outbound, Event::Cancel, 1);
    assert_eq!(outbound.len(), 3);
    assert_eq!(outbound[2], widget_message(13, "iact", vec![coord(0, 0), number(0)]));
    turn(&mut session, &mut outbound, new_widget(38, "sm", 65536, vec![], vec![text("Drink"), text("Sip"), text("Empty")]), 2);
    assert_eq!(outbound.len(), 3);
    turn(&mut session, &mut outbound, Event::AddWidget { id: 38, parent: 65536, pargs: vec![] }, 3);
    assert_eq!(outbound.len(), 4);
    assert_eq!(outbound[3], widget_message(38, "cl", vec![number(0), number(0)]));
    turn(&mut session, &mut outbound, ui_message(38, "act", vec![]), 4);
    assert_eq!(outbound.len(), 4);
    turn(&mut session, &mut outbound, ui_message(33, "set", vec![Value::Nil, number(100)]), 5);
    assert_eq!(outbound.len(), 5);
    assert_eq!(outbound[4], done("Drinker"));
}

#[test]
fn drinker_waits_between_two_sips() {
    let (world, player) = lake();
    let view = world.for_player(&player).unwrap();
    let mut drinker = Drinker::new(drinker_config());
    assert_eq!(drinker.next_message(&view, 0), Some(Message::LockWidget { value: String::from("sm") }));
    assert_eq!(drinker.wait_interval, Some(3 * SECOND));
    drinker.sip.as_mut().unwrap().done = true;
    assert_eq!(drinker.next_message(&view, 10), None);
    assert_eq!(drinker.last_sip, Some(10));
    assert!(drinker.sip.is_none());
    assert_eq!(drinker.next_message(&view, 10 + 3 * SECOND - 1), None);
    assert_eq!(drinker.next_message(&view, 10 + 3 * SECOND), Some(Message::LockWidget { value: String::from("sm") }));
}

#[test]
fn tasks_are_made_by_their_names() {
    let configs = session_config().tasks;
    assert!(matches!(make_task("Explorer", None, &configs), Ok(TaskKind::Explorer(_))));
    assert!(matches!(make_task("ExpWndCloser", None, &configs), Ok(TaskKind::ExpWndCloser(_))));
    assert!(matches!(make_task("PathFinder", None, &configs), Ok(TaskKind::PathFinder(_))));
    assert!(matches!(make_task("Drinker", None, &configs), Ok(TaskKind::Drinker(_))));
    assert!(matches!(
        make_task("NewCharacter", Some(NewCharacterParams { character_name: String::from("a") }), &configs),
        Ok(TaskKind::NewCharacter(_))
    ));
    assert_eq!(make_task("NewCharacter", None, &configs).err(), Some(String::from("Failed to parse NewCharacter bot params")));
    assert_eq!(make_task("Sleeper", None, &configs).err(), Some(String::from("Task is not found")));
}

#[test]
fn new_character_task_is_announced_before_its_first_click() {
    let mut session = lake_session();
    let cancel = AtomicBool::new(false);
    let context = TaskContext { now: 0, geometry: &Floats, cancel: &cancel };
    let mut outbound: Vec<Message> = Vec::new();
    let params = b"{\"character_name\":\"Noexcept\"}".to_vec();
    assert!(process_update(
        &mut session,
        &mut outbound,
        Update { session: 1, number: 1000, event: Event::TaskAdd { name: String::from("NewCharacter"), params: params.clone() } },
        None,
        Some(NewCharacterParams { character_name: String::from("Noexcept") }),
        &context,
    ));
    assert_eq!(outbound, vec![
        Message::UIMessage { id: 6, kind: String::from("add-task"), arguments: vec![Value::Long { value: 1 }, text("NewCharacter"), Value::Bytes { value: params }] },
        widget_message(7, "click", vec![coord(0, 0), coord(-924781, -941823), number(1), number(0)]),
    ]);
    assert_eq!(session.get_tasks(), vec![String::from("NewCharacter")]);
}

#[test]
fn session_drops_stale_updates() {
    let mut session = Session::new(1, NoMapDb {}, session_config());
    assert!(session.update(Update { session: 1, number: 5, event: new_widget(6, "gameui", 0, vec![], vec![]) }, None, 0));
    assert_eq!(session.last_update, 5);
    assert!(!session.update(Update { session: 1, number: 5, event: new_widget(7, "mapview", 0, vec![], vec![]) }, None, 0));
    assert!(!session.update(Update { session: 1, number: 4, event: new_widget(7, "mapview", 0, vec![], vec![]) }, None, 0));
    assert_eq!(session.player.map_view_id(), None);
    assert!(session.update(Update { session: 1, number: 9, event: new_widget(7, "mapview", 0, vec![], vec![]) }, None, 0));
    assert_eq!(session.last_update, 9);
    assert!(!session.update(Update { session: 1, number: 10, event: Event::Cancel }, None, 0));
    assert_eq!(session.last_update, 10);
}

#[test]
fn session_tells_the_game_of_its_tasks() {
    let mut session = lake_session();
    assert_eq!(session.add_task("Sleeper", vec![], None), Err(String::from("Task is not found")));
    assert_eq!(session.task_id_counter, 1);
    assert_eq!(session.add_task("Explorer", vec![1, 2], None), Ok(()));
    assert_eq!(session.add_task("ExpWndCloser", vec![], None), Ok(()));
    assert_eq!(session.add_task("Explorer", vec![], None), Ok(()));
    assert_eq!(session.get_tasks(), vec![String::from("Explorer"), String::from("ExpWndCloser"), String::from("Explorer")]);
    assert_eq!(session.tasks.iter().map(|v| v.id).collect::<Vec<_>>(), vec![2, 3, 4]);
    assert_eq!(session.get_existing_message(), Some(Message::UIMessage { id: 6, kind: String::from("add-task"), arguments: vec![Value::Long { value: 2 }, text("Explorer"), Value::Bytes { value: vec![1, 2] }] }));
    assert!(session.get_existing_message().is_some());
    assert!(session.get_existing_message().is_some());
    assert_eq!(session.get_existing_message(), None);
    session.remove_task(9);
    assert_eq!(session.get_existing_message(), None);
    session.remove_task(3);
    assert_eq!(session.get_existing_message(), Some(Message::UIMessage { id: 6, kind: String::from("remove-task"), arguments: vec![Value::Long { value: 3 }] }));
    assert_eq!(session.tasks.iter().map(|v| v.id).collect::<Vec<_>>(), vec![2, 4]);
    session.clear_tasks();
    assert_eq!(session.get_tasks(), Vec::<String>::new());
    assert_eq!(session.messages.len(), 2);
    let unlocated = &mut Session::new(2, NoMapDb {}, session_config());
    assert_eq!(unlocated.add_task("Explorer", vec![], None), Ok(()));
    unlocated.remove_task(1);
    assert_eq!(unlocated.get_existing_message(), None);
    assert!(unlocated.get_player_world().is_none());
}

#[test]
fn tasks_see_the_world_as_it_was_before_the_event() {
    let mut session = lake_session();
    session.add_task("PathFinder", vec![], None).unwrap();
    let click = Event::WidgetMessage { id: 7, msg: String::from("click"), args: vec![coord(0, 0), coord(30 * 1024, 30 * 1024), number(1), number(4)] };
    session.update(Update { session: 1, number: 1000, event: Event::Destroy { id: 7 } }, None, 0);
    session.update(Update { session: 1, number: 1001, event: click.clone() }, None, 0);
    match &session.tasks[0].value {
        TaskKind::PathFinder(task) => assert_eq!(task.destination, None),
        _ => panic!("another task"),
    }
    session.update(Update { session: 1, number: 1002, event: new_widget(7, "mapview", 6, vec![], vec![]) }, None, 0);
    session.update(Update { session: 1, number: 1003, event: click }, None, 0);
    match &session.tasks[0].value {
        TaskKind::PathFinder(task) => assert_eq!(task.destination, Some(Vec2i::new(30, 30))),
        _ => panic!("another task"),
    }
}

#[test]
fn first_message_that_is_not_done_is_sent() {
    let mut session = lake_session();
    let cancel = AtomicBool::new(false);
    let context = TaskContext { now: 0, geometry: &Floats, cancel: &cancel };
    assert_eq!(session.get_next_message(&context), None);
    session.update(Update { session: 1, number: 1000, event: ui_message(33, "set", vec![Value::Nil, number(100)]) }, None, 0);
    session.add_task("Drinker", vec![], None).unwrap();
    assert_eq!(session.get_next_message(&context), Some(done("Drinker")));
    session.add_task("ExpWndCloser", vec![], None).unwrap();
    session.add_task("Drinker", vec![], None).unwrap();
    assert_eq!(session.get_next_message(&context), Some(done("Drinker")));
    session.update(Update { session: 1, number: 1001, event: new_widget(90, "ui/expwnd:1", 6, vec![], vec![]) }, None, 0);
    let polled = session.poll_tasks(&context);
    assert_eq!((polled.message, polled.asked), (Some(widget_message(90, "close", vec![])), 2));
    let all = session.poll_tasks(&context);
    assert_eq!((all.message, all.asked), (Some(done("Drinker")), 3));
}

#[test]
fn messages_are_not_sent_twice_in_a_row() {
    let mut outbound: Vec<Message> = Vec::new();
    push_unless_repeated(&mut outbound, done("a"));
    push_unless_repeated(&mut outbound, done("a"));
    push_unless_repeated(&mut outbound, done("b"));
    push_unless_repeated(&mut outbound, done("a"));
    assert_eq!(outbound, vec![done("a"), done("b"), done("a")]);
    let mut session = lake_session();
    session.add_task("ExpWndCloser", vec![], None).unwrap();
    session.add_task("ExpWndCloser", vec![], None).unwrap();
    let cancel = AtomicBool::new(false);
    let context = TaskContext { now: 0, geometry: &Floats, cancel: &cancel };
    emit(&mut session, &mut outbound, &context);
    assert_eq!(outbound.len(), 5);
    assert_eq!(session.messages.len(), 0);
}

#[test]
fn closing_update_ends_the_session() {
    let mut session = lake_session();
    let cancel = AtomicBool::new(false);
    let context = TaskContext { now: 0, geometry: &Floats, cancel: &cancel };
    let mut outbound: Vec<Message> = Vec::new();
    assert!(process_update(&mut session, &mut outbound, Update { session: 1, number: 1000, event: Event::GetSessionData }, Some(String::from("{}")), None, &context));
    assert_eq!(outbound, vec![Message::SessionData { value: String::from("{}") }]);
    assert!(process_update(&mut session, &mut outbound, Update { session: 1, number: 1001, event: Event::GetSessionData }, None, None, &context));
    assert_eq!(outbound.len(), 1);
    assert!(!process_update(&mut session, &mut outbound, Update { session: 1, number: 1002, event: Event::Close }, Some(String::from("{}")), None, &context));
    assert_eq!(outbound.len(), 1);
    assert_eq!(session.last_update, 1001);
}

#[test]
fn session_data_round_trip() {
    let mut session = lake_session();
    session.add_task("NewCharacter", b"{}".to_vec(), Some(NewCharacterParams { character_name: String::from("a") })).unwrap();
    session.add_task("ExpWndCloser", vec![], None).unwrap();
    session.update(Update { session: 1, number: 1000, event: new_widget(90, "ui/expwnd:1", 6, vec![], vec![]) }, None, 0);
    let data = session.as_session_data();
    assert_eq!((data.id, data.last_update, data.task_id_counter, data.tasks.len()), (1, 1000, 2, 2));
    let failed = Session::from_session_data(data.clone(), NoMapDb {}, session_config(), vec![]);
    assert_eq!(failed.err(), Some(String::from("Failed to parse NewCharacter bot params")));
    let copy = Session::from_session_data(
        data.clone(),
        NoMapDb {},
        session_config(),
        vec![Some(NewCharacterParams { character_name: String::from("a") })],
    ).ok().unwrap();
    assert_eq!(copy.last_update, 0);
    let mut again = copy.as_session_data();
    again.last_update = data.last_update;
    assert_eq!(again, data);
    match &copy.tasks[1].value {
        TaskKind::ExpWndCloser(task) => assert_eq!(task.exp_wnd_ids, vec![90]),
        _ => panic!("another task"),
    }
}
