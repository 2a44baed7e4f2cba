use hafen_bot::grid::GridNeighbour;
use hafen_bot::map_db::NoMapDb;
use hafen_bot::objects::{Object, Objects};
use hafen_bot::player::{
    Content, EquipmentConfig, Item, ItemsConfig, MetersConfig, Player, PlayerConfig, PlayerData,
    PlayerGrid,
};
use hafen_bot::protocol::{Event, MapGrid, Update, Value, Vec2f, WorldPos};
use hafen_bot::stuck_detector::StuckDetector;
use hafen_bot::vec2::Vec2i;
use hafen_bot::world::{World, WorldConfig};

fn config() -> PlayerConfig {
    PlayerConfig {
        meters: MetersConfig { stamina: String::from("gfx/hud/meter/stam") },
        equipment: EquipmentConfig { belt: 5 },
        items: ItemsConfig {
            content: String::from("ui/tt/cont"),
            content_name: String::from("ui/tt/cn"),
            quality: String::from("ui/tt/q/quality"),
        },
    }
}

fn at(x: f64, y: f64) -> WorldPos {
    WorldPos {
        point: Vec2f { x: x.to_bits(), y: y.to_bits() },
        tile: Vec2i::new((x / 11.0).floor() as i32, (y / 11.0).floor() as i32),
        map_pos: Vec2i::new((x / (11.0 / 1024.0)).floor() as i32, (y / (11.0 / 1024.0)).floor() as i32),
    }
}

fn update(number: i64, event: Event) -> Update {
    Update { session: 1, number, event }
}

fn text(value: &str) -> Value {
    Value::Str { value: String::from(value) }
}

fn number(value: i32) -> Value {
    Value::Int { value }
}

fn new_widget(id: i32, kind: &str, parent: i32, pargs: Vec<Value>, cargs: Vec<Value>) -> Event {
    Event::NewWidget { id, kind: String::from(kind), parent, pargs, cargs }
}

fn apply(player: &mut Player, objects: &Objects, event: Event) -> bool {
    player.update(objects, &update(1, event), 0)
}

fn located_player() -> (Player, Objects) {
    let mut objects = Objects::new();
    objects.add(Object { id: 42, position: at(115.0, 225.0), angle: 0, name: None });
    let mut player = Player::new(config());
    assert!(apply(&mut player, &objects, Event::MapGridAdd {
        grid: MapGrid { id: 7, position: Vec2i::new(0, 0), heights: Vec::new(), tiles: Vec::new() },
        neighbours: Vec::<GridNeighbour>::new(),
    }));
    assert!(apply(&mut player, &objects, Event::ResourceAdd { id: 100, version: 1, name: String::from("gfx/hud/meter/stam") }));
    assert!(apply(&mut player, &objects, new_widget(6, "gameui", 0, vec![], vec![text("Jorb"), number(42)])));
    assert!(apply(&mut player, &objects, new_widget(7, "mapview", 6, vec![], vec![])));
    assert!(apply(&mut player, &objects, new_widget(33, "im", 6, vec![], vec![number(100)])));
    assert!(apply(&mut player, &objects, new_widget(8, "epry", 6, vec![], vec![])));
    assert!(apply(&mut player, &objects, Event::UIMessage { id: 33, msg: String::from("set"), args: vec![Value::Nil, number(80)] }));
    (player, objects)
}

#[test]
fn game_ui_widget_links_the_player_to_its_object() {
    let (player, _) = located_player();
    assert_eq!(player.game_ui_id(), Some(6));
    assert_eq!(player.map_view_id(), Some(7));
    assert_eq!(player.name(), Some(&String::from("Jorb")));
    assert_eq!(player.object_id(), Some(42));
    assert_eq!(player.position(), Some(at(115.0, 225.0)));
    assert_eq!(player.grid_id(), Some(7));
    assert_eq!(player.stamina(), Some(80));
    assert!(player.equipment().is_some());
    assert!(!player.is_stuck());
    assert_eq!(player.widgets().keys, vec![6, 7, 8, 33]);
    assert_eq!(player.resources().keys, vec![100]);
}

#[test]
fn stamina_meter_is_bound_by_its_resource() {
    let objects = Objects::new();
    let mut player = Player::new(config());
    apply(&mut player, &objects, Event::ResourceAdd { id: 100, version: 1, name: String::from("gfx/hud/meter/stam") });
    apply(&mut player, &objects, new_widget(30, "im", 6, vec![], vec![number(99)]));
    assert!(!apply(&mut player, &objects, Event::UIMessage { id: 30, msg: String::from("set"), args: vec![Value::Nil, number(50)] }));
    assert_eq!(player.stamina(), None);
    apply(&mut player, &objects, new_widget(31, "im", 6, vec![], vec![number(100)]));
    assert!(!apply(&mut player, &objects, Event::UIMessage { id: 31, msg: String::from("set"), args: vec![Value::Nil, text("x")] }));
    assert!(!apply(&mut player, &objects, Event::UIMessage { id: 31, msg: String::from("set"), args: vec![number(1)] }));
    assert!(apply(&mut player, &objects, Event::UIMessage { id: 31, msg: String::from("set"), args: vec![Value::Nil, number(50)] }));
    assert_eq!(player.stamina(), Some(50));
}

#[test]
fn player_follows_its_object() {
    let (mut player, objects) = located_player();
    assert!(!apply(&mut player, &objects, Event::GobMove { id: 1, position: at(0.0, 0.0), angle: 0 }));
    assert!(player.update(&objects, &update(2, Event::GobMove { id: 42, position: at(1200.0, 0.0), angle: 0 }), 10));
    assert_eq!(player.position(), Some(at(1200.0, 0.0)));
    assert_eq!(player.grid_id(), Some(7));
    apply(&mut player, &objects, Event::MapGridAdd {
        grid: MapGrid { id: 8, position: Vec2i::new(1, 0), heights: Vec::new(), tiles: Vec::new() },
        neighbours: Vec::new(),
    });
    assert_eq!(player.grid_id(), Some(8));
    assert!(apply(&mut player, &objects, Event::MapGridRemove { id: 8 }));
    assert_eq!(player.grid_id(), None);
    assert_eq!(player.map_grids, vec![PlayerGrid { id: 7, position: Vec2i::new(0, 0) }]);
    assert!(apply(&mut player, &objects, Event::GobRemove { id: 42 }));
    assert_eq!(player.position(), None);
    assert!(!apply(&mut player, &objects, Event::GobRemove { id: 1 }));
}

#[test]
fn player_is_stuck_after_a_second_at_one_point() {
    let (mut player, objects) = located_player();
    let here = at(5.0, 5.0);
    assert!(player.update(&objects, &update(2, Event::GobMove { id: 42, position: here, angle: 0 }), 1_000));
    assert!(!player.is_stuck());
    assert!(player.update(&objects, &update(3, Event::GobMove { id: 42, position: here, angle: 0 }), 1_000_001_000));
    assert!(!player.is_stuck());
    assert!(player.update(&objects, &update(4, Event::GobMove { id: 42, position: here, angle: 0 }), 2_000_001_001));
    assert!(player.is_stuck());
    assert!(player.update(&objects, &update(5, Event::GobMove { id: 42, position: at(6.0, 5.0), angle: 0 }), 9_000_000_000));
    assert!(!player.is_stuck());
}

#[test]
fn stuck_detector_wants_more_than_a_second() {
    let mut detector = StuckDetector::new();
    let point = Vec2f { x: 1.5f64.to_bits(), y: 2.5f64.to_bits() };
    assert!(!detector.check(point, 5_000_000_000));
    detector.update(point, 1_000);
    assert!(!detector.check(point, 1_000_001_000));
    assert!(detector.check(point, 1_000_001_001));
    assert!(!detector.check(Vec2f { x: 0, y: 0 }, 9_000_000_000));
    assert!(!detector.check(point, 0));
}

#[test]
fn plob_sets_and_clears_the_object() {
    let (mut player, objects) = located_player();
    assert!(!apply(&mut player, &objects, Event::UIMessage { id: 6, msg: String::from("plob"), args: vec![number(9)] }));
    assert!(!apply(&mut player, &objects, Event::UIMessage { id: 7, msg: String::from("plob"), args: vec![] }));
    assert!(!apply(&mut player, &objects, Event::UIMessage { id: 7, msg: String::from("plob"), args: vec![text("x")] }));
    assert!(apply(&mut player, &objects, Event::UIMessage { id: 7, msg: String::from("plob"), args: vec![number(9)] }));
    assert_eq!(player.object_id(), Some(9));
    assert!(apply(&mut player, &objects, Event::UIMessage { id: 7, msg: String::from("plob"), args: vec![Value::Nil] }));
    assert_eq!(player.object_id(), None);
}

fn tooltip(content_res: i32, name_res: i32, quality_res: i32, name: &str, quality: f32) -> Vec<Value> {
    vec![
        Value::Nil,
        Value::Nil,
        Value::List {
            value: vec![
                number(content_res),
                Value::List {
                    value: vec![
                        Value::List { value: vec![number(name_res), text(name)] },
                        Value::List { value: vec![number(quality_res), Value::Float32 { value: quality.to_bits() }] },
                    ],
                },
            ],
        },
    ]
}

fn player_with_items() -> (Player, Objects) {
    let (mut player, objects) = located_player();
    apply(&mut player, &objects, Event::ResourceAdd { id: 200, version: 1, name: String::from("ui/tt/cont") });
    apply(&mut player, &objects, Event::ResourceAdd { id: 201, version: 1, name: String::from("ui/tt/cn") });
    apply(&mut player, &objects, Event::ResourceAdd { id: 202, version: 1, name: String::from("ui/tt/q/quality") });
    apply(&mut player, &objects, new_widget(10, "inv", 6, vec![text("inv")], vec![]));
    apply(&mut player, &objects, new_widget(11, "wnd", 6, vec![], vec![Value::Nil, text("Belt")]));
    apply(&mut player, &objects, new_widget(12, "inv", 11, vec![], vec![]));
    apply(&mut player, &objects, new_widget(13, "item", 12, vec![Value::Coord { value: Vec2i::new(1, 0) }], vec![number(300)]));
    apply(&mut player, &objects, new_widget(14, "item", 10, vec![Value::Coord { value: Vec2i::new(2, 3) }], vec![number(301)]));
    apply(&mut player, &objects, new_widget(15, "item", 8, vec![number(5)], vec![number(302)]));
    apply(&mut player, &objects, new_widget(16, "item", 6, vec![text("hand")], vec![number(303)]));
    (player, objects)
}

#[test]
fn items_go_to_hand_equipment_and_inventories() {
    let (player, _) = player_with_items();
    assert_eq!(player.inventory_id(), Some(10));
    assert_eq!(player.belt_inventory_id(), Some(12));
    assert_eq!(player.equipment().unwrap().belt(), Some(15));
    assert_eq!(player.hand(), &Some(Item { id: 16, resource: 303, content: None, position: None }));
    assert_eq!(player.widget_inventories().keys, vec![10, 12]);
    assert_eq!(
        player.widget_inventories().get(12).unwrap().get(13),
        Some(&Item { id: 13, resource: 300, content: None, position: Some(Vec2i::new(1, 0)) })
    );
    assert_eq!(
        player.widget_inventories().get(10).unwrap().get(14),
        Some(&Item { id: 14, resource: 301, content: None, position: Some(Vec2i::new(2, 3)) })
    );
}

#[test]
fn tooltip_tells_what_an_item_holds() {
    let (mut player, objects) = player_with_items();
    assert!(apply(&mut player, &objects, Event::UIMessage { id: 13, msg: String::from("tt"), args: tooltip(200, 201, 202, "Water", 10.0) }));
    assert_eq!(
        player.widget_inventories().get(12).unwrap().get(13).unwrap().content,
        Some(Content { name: String::from("Water"), quality: 10.0f32.to_bits() })
    );
    assert!(!apply(&mut player, &objects, Event::UIMessage { id: 14, msg: String::from("tt"), args: vec![] }));
    assert!(!apply(&mut player, &objects, Event::UIMessage { id: 99, msg: String::from("tt"), args: tooltip(200, 201, 202, "Water", 10.0) }));
    assert!(apply(&mut player, &objects, Event::UIMessage { id: 13, msg: String::from("tt"), args: tooltip(999, 201, 202, "Tea", 1.0) }));
    assert_eq!(player.widget_inventories().get(12).unwrap().get(13).unwrap().content, None);
    assert!(apply(&mut player, &objects, Event::UIMessage { id: 16, msg: String::from("tt"), args: tooltip(200, 201, 202, "Tea", 2.0) }));
    assert_eq!(player.hand().as_ref().unwrap().content, Some(Content { name: String::from("Tea"), quality: 2.0f32.to_bits() }));
}

#[test]
fn destroy_forgets_widgets_and_items() {
    let (mut player, objects) = player_with_items();
    assert!(apply(&mut player, &objects, Event::Destroy { id: 16 }));
    assert_eq!(player.hand(), &None);
    assert!(apply(&mut player, &objects, Event::Destroy { id: 13 }));
    assert_eq!(player.widget_inventories().get(12).unwrap().len(), 0);
    assert!(apply(&mut player, &objects, Event::Destroy { id: 12 }));
    assert_eq!(player.belt_inventory_id(), None);
    assert_eq!(player.widget_inventories().keys, vec![10]);
    assert!(!apply(&mut player, &objects, Event::Destroy { id: 12 }));
    assert!(apply(&mut player, &objects, Event::Destroy { id: 7 }));
    assert_eq!(player.map_view_id(), None);
    assert!(apply(&mut player, &objects, Event::Destroy { id: 6 }));
    assert_eq!(player.game_ui_id(), None);
}

#[test]
fn add_widget_gives_a_known_widget_a_new_parent() {
    let (mut player, objects) = player_with_items();
    assert!(apply(&mut player, &objects, Event::AddWidget { id: 11, parent: 6, pargs: vec![number(1), number(2), Value::List { value: vec![text("id"), text("toolbelt")] }] }));
    assert_eq!(player.widgets().get(11).unwrap().pargs_add.len(), 3);
    assert!(!apply(&mut player, &objects, Event::AddWidget { id: 999, parent: 6, pargs: vec![] }));
    assert!(!apply(&mut player, &objects, Event::Cancel));
}

#[test]
fn player_data_round_trip() {
    let (mut player, objects) = player_with_items();
    apply(&mut player, &objects, Event::UIMessage { id: 13, msg: String::from("tt"), args: tooltip(200, 201, 202, "Water", 10.0) });
    let data = player.as_player_data();
    assert_eq!(data.game_ui_id, Some(6));
    assert_eq!(data.items.iter().map(|v| v.id).collect::<Vec<_>>(), vec![14, 13, 16]);
    let copy = Player::from_player_data(
        PlayerData { widgets: data.widgets.clone(), items: data.items.clone(), ..data.clone() },
        config(),
    );
    assert_eq!(copy.as_player_data(), data);
    assert_eq!(copy.inventory_id(), Some(10));
    assert_eq!(copy.belt_inventory_id(), Some(12));
    assert_eq!(copy.stamina(), Some(80));
    assert_eq!(copy.equipment().unwrap().belt(), Some(15));
    assert_eq!(copy.hand().as_ref().map(|v| v.id), Some(16));
    assert!(!copy.is_stuck());
}

fn world_config() -> WorldConfig {
    WorldConfig { water_tiles: Vec::new(), ice_tiles: Vec::new(), report_iterations: 1000 }
}

#[test]
fn player_world_exists_once_everything_is_known() {
    let mut world = World::new(world_config(), NoMapDb {});
    let mut player = Player::new(config());
    let mut count = 0;
    let events = vec![
        Event::ResourceAdd { id: 100, version: 1, name: String::from("gfx/hud/meter/stam") },
        new_widget(6, "gameui", 0, vec![], vec![text("Jorb"), number(42)]),
        new_widget(7, "mapview", 6, vec![], vec![]),
        new_widget(33, "im", 6, vec![], vec![number(100)]),
        new_widget(8, "epry", 6, vec![], vec![]),
        Event::UIMessage { id: 33, msg: String::from("set"), args: vec![Value::Nil, number(80)] },
        Event::MapGridAdd {
            grid: MapGrid { id: 7, position: Vec2i::new(3, 4), heights: vec![0; 10000], tiles: vec![5; 10000] },
            neighbours: Vec::new(),
        },
    ];
    for event in events {
        count += 1;
        player.update(world.objects(), &update(count, event.clone()), 0);
        world.update(update(count, event));
        assert!(world.for_player(&player).is_none());
    }
    let seen = Event::GobAdd { id: 42, position: at(3.0 * 1100.0 + 5.0, 4.0 * 1100.0 + 16.0), angle: 0, name: None };
    player.update(world.objects(), &update(8, seen.clone()), 0);
    assert!(world.update(update(8, seen)));
    assert_eq!(world.revision, 2);
    let view = world.for_player(&player).unwrap();
    assert_eq!(view.player_segment_id(), 7);
    assert_eq!(view.player_grid_id(), 7);
    assert_eq!(view.player_object_id(), 42);
    assert_eq!(view.player_stamina(), 80);
    assert_eq!(view.map_view_id(), 7);
    assert_eq!(view.game_ui_id(), 6);
    assert_eq!(view.player_grid_offset, Vec2i::new(0, 0));
    assert_eq!(view.get_tile(Vec2i::new(300, 401)), Some(5));
    assert_eq!(view.get_tile(Vec2i::new(299, 401)), None);
    assert_eq!(view.objects_len(), 1);
    assert!(!view.is_player_stuck());
}

#[test]
fn world_counts_the_events_that_change_it() {
    let mut world = World::new(world_config(), NoMapDb {});
    assert!(!world.update(update(1, Event::Cancel)));
    assert!(!world.update(update(2, Event::GobRemove { id: 1 })));
    assert!(!world.update(update(3, Event::GobMove { id: 1, position: at(0.0, 0.0), angle: 0 })));
    assert_eq!(world.revision, 0);
    assert!(world.update(update(4, Event::GobAdd { id: 1, position: at(0.0, 0.0), angle: 0, name: None })));
    assert!(world.update(update(5, Event::GobMove { id: 1, position: at(1.0, 0.0), angle: 0 })));
    assert!(world.update(update(6, Event::MapTile { id: 1, version: 1, name: String::from("a"), color: 0 })));
    assert!(world.update(update(7, Event::MapGridAdd { grid: MapGrid { id: 1, position: Vec2i::new(0, 0), heights: vec![], tiles: vec![] }, neighbours: vec![] })));
    assert!(world.update(update(8, Event::MapGridUpdate { grid: MapGrid { id: 1, position: Vec2i::new(1, 0), heights: vec![], tiles: vec![] } })));
    assert!(world.update(update(9, Event::GobRemove { id: 1 })));
    assert_eq!(world.revision, 6);
    let data = world.as_world_data();
    assert_eq!(data.map.grids[0].revision, 2);
    assert_eq!(data.map.grids[0].position, Vec2i::new(1, 0));
    let copy = World::from_world_data(data.clone(), world_config(), NoMapDb {});
    assert_eq!(copy.as_world_data(), data);
}

#[test]
fn stuck_detector_compares_positions_as_doubles() {
    let mut detector = StuckDetector::new();
    detector.update(Vec2f { x: 0.0f64.to_bits(), y: (-0.0f64).to_bits() }, 0);
    assert!(detector.check(Vec2f { x: (-0.0f64).to_bits(), y: 0.0f64.to_bits() }, 2_000_000_000));
    let nan = Vec2f { x: f64::NAN.to_bits(), y: 1.0f64.to_bits() };
    detector.update(nan, 0);
    assert!(!detector.check(nan, 2_000_000_000));
    assert_eq!(0.0f64 == -0.0f64, true);
    assert_eq!(f64::NAN == f64::NAN, false);
}
