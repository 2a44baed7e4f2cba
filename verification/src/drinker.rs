//! The task that lets the player drink when its stamina runs low.

use vstd::prelude::*;
use crate::actions::{belt_window, waits, OpenBelt, UseItem, UseItemData};
use crate::geometry::Geometry;
use crate::map_db::MapDb;
use crate::ordered_map::OrderedMap;
use crate::player::{Item, Resource};
use crate::protocol::{
    contains_str, has_part, message_view, Event, Message, MessageData, Update,
};
use crate::task::{Task, TaskContext};
use crate::world::PlayerWorld;

verus! {

/// What can be drunk: a content whose name holds `name` is drunk by the
/// action `action`, with `wait_interval` nanoseconds between two sips.
#[derive(Debug, Clone)]
pub struct ContentConfig {
    pub name: String,
    pub action: String,
    pub wait_interval: u64,
}

/// When and what to drink. The timeouts are in nanoseconds.
#[derive(Debug, Clone)]
pub struct DrinkerConfig {
    pub open_belt_timeout: u64,
    pub sip_timeout: u64,
    pub max_stamina: i32,
    pub stamina_threshold: i32,
    pub liquid_containers: Vec<String>,
    pub contents: Vec<ContentConfig>,
}

/// The mathematical value of a `ContentConfig`.
pub struct ContentConfigData {
    pub name: Seq<char>,
    pub action: Seq<char>,
    pub wait_interval: u64,
}

/// The mathematical value of a `DrinkerConfig`.
pub struct DrinkerConfigData {
    pub open_belt_timeout: u64,
    pub sip_timeout: u64,
    pub max_stamina: i32,
    pub stamina_threshold: i32,
    pub liquid_containers: Seq<Seq<char>>,
    pub contents: Seq<ContentConfigData>,
}

impl View for DrinkerConfig {
    type V = DrinkerConfigData;

    open spec fn view(&self) -> DrinkerConfigData {
        DrinkerConfigData {
            open_belt_timeout: self.open_belt_timeout,
            sip_timeout: self.sip_timeout,
            max_stamina: self.max_stamina,
            stamina_threshold: self.stamina_threshold,
            liquid_containers: Seq::new(
                self.liquid_containers@.len(),
                |i: int| self.liquid_containers@[i]@,
            ),
            contents: Seq::new(
                self.contents@.len(),
                |i: int|
                    ContentConfigData {
                        name: self.contents@[i].name@,
                        action: self.contents@[i].action@,
                        wait_interval: self.contents@[i].wait_interval,
                    },
            ),
        }
    }
}

impl DrinkerConfig {
    /// A configuration equal to this one.
    pub fn duplicate(&self) -> (result: DrinkerConfig)
        ensures
            result@ == self@,
    {
        let mut liquid_containers: Vec<String> = Vec::new();
        let mut i: usize = 0;
        while i < self.liquid_containers.len()
            invariant
                i <= self.liquid_containers.len(),
                liquid_containers.len() == i,
                forall|k: int|
                    0 <= k < i ==> (#[trigger] liquid_containers[k])@ == self.liquid_containers[k]@,
            decreases self.liquid_containers.len() - i,
        {
            liquid_containers.push(self.liquid_containers[i].clone());
            i += 1;
        }
        let mut contents: Vec<ContentConfig> = Vec::new();
        let mut j: usize = 0;
        while j < self.contents.len()
            invariant
                j <= self.contents.len(),
                contents.len() == j,
                forall|k: int|
                    0 <= k < j ==> (#[trigger] contents[k]).name@ == self.contents[k].name@
                        && contents[k].action@ == self.contents[k].action@
                        && contents[k].wait_interval == self.contents[k].wait_interval,
            decreases self.contents.len() - j,
        {
            contents.push(
                ContentConfig {
                    name: self.contents[j].name.clone(),
                    action: self.contents[j].action.clone(),
                    wait_interval: self.contents[j].wait_interval,
                },
            );
            j += 1;
        }
        let result = DrinkerConfig {
            open_belt_timeout: self.open_belt_timeout,
            sip_timeout: self.sip_timeout,
            max_stamina: self.max_stamina,
            stamina_threshold: self.stamina_threshold,
            liquid_containers,
            contents,
        };
        proof {
            assert(result@.liquid_containers =~= self@.liquid_containers);
            assert(result@.contents =~= self@.contents);
        }
        result
    }
}

/// Drinks from a container in the belt or the inventory until the stamina
/// is at its greatest.
pub struct Drinker {
    pub open_belt: OpenBelt,
    pub sip: Option<UseItem>,
    pub wait_interval: Option<u64>,
    pub last_sip: Option<u64>,
    pub config: DrinkerConfig,
}

/// What was found to drink from: the item, the action that drinks from
/// it, and the time between two sips.
pub struct Drink {
    pub item_id: i32,
    pub action: Seq<char>,
    pub wait_interval: u64,
}

/// Whether `name` is among the names.
pub open spec fn is_listed(names: Seq<String>, name: Seq<char>) -> bool {
    exists|i: int| 0 <= i < names.len() && (#[trigger] names[i])@ == name
}

/// Whether one can drink `wanted` from the item: it holds a content whose
/// name holds `wanted`, and its resource is known as a liquid container.
pub open spec fn holds_drink(
    item: Item,
    wanted: Seq<char>,
    resources: Map<i128, Resource>,
    liquids: Seq<String>,
) -> bool {
    &&& item.content.is_some()
    &&& has_part(item.content.unwrap().name@, wanted)
    &&& resources.contains_key(item.resource as i128)
    &&& is_listed(liquids, resources[item.resource as i128].name@)
}

/// The id of the first of the first `n` items that one can drink `wanted`
/// from.
pub open spec fn first_holding(
    items: Seq<Item>,
    wanted: Seq<char>,
    resources: Map<i128, Resource>,
    liquids: Seq<String>,
    n: int,
) -> Option<i32>
    decreases n,
{
    if n <= 0 {
        None
    } else {
        match first_holding(items, wanted, resources, liquids, n - 1) {
            Some(id) => Some(id),
            None => if holds_drink(items[n - 1], wanted, resources, liquids) {
                Some(items[n - 1].id)
            } else {
                None
            },
        }
    }
}

/// Something found among the first `n` items is what is found among the
/// first `m`, for every `m` from `n` on.
pub proof fn lemma_first_holding_found(
    items: Seq<Item>,
    wanted: Seq<char>,
    resources: Map<i128, Resource>,
    liquids: Seq<String>,
    n: int,
    m: int,
)
    requires
        n <= m,
        first_holding(items, wanted, resources, liquids, n).is_some(),
    ensures
        first_holding(items, wanted, resources, liquids, m) == first_holding(
            items,
            wanted,
            resources,
            liquids,
            n,
        ),
    decreases m - n,
{
    if n < m {
        lemma_first_holding_found(items, wanted, resources, liquids, n, m - 1);
    }
}

/// What the first of the first `n` kinds of content that can be drunk
/// from some item is drunk from: the items of the belt come before those
/// of the inventory.
pub open spec fn first_drink(
    contents: Seq<ContentConfig>,
    belt: Seq<Item>,
    inventory: Seq<Item>,
    resources: Map<i128, Resource>,
    liquids: Seq<String>,
    n: int,
) -> Option<Drink>
    decreases n,
{
    if n <= 0 {
        None
    } else {
        match first_drink(contents, belt, inventory, resources, liquids, n - 1) {
            Some(drink) => Some(drink),
            None => {
                let config = contents[n - 1];
                let found = match first_holding(
                    belt,
                    config.name@,
                    resources,
                    liquids,
                    belt.len() as int,
                ) {
                    Some(id) => Some(id),
                    None => first_holding(
                        inventory,
                        config.name@,
                        resources,
                        liquids,
                        inventory.len() as int,
                    ),
                };
                match found {
                    Some(item_id) => Some(
                        Drink {
                            item_id,
                            action: config.action@,
                            wait_interval: config.wait_interval,
                        },
                    ),
                    None => None,
                }
            },
        }
    }
}

/// Something found among the first `n` kinds of content is what is found
/// among the first `m`, for every `m` from `n` on.
pub proof fn lemma_first_drink_found(
    contents: Seq<ContentConfig>,
    belt: Seq<Item>,
    inventory: Seq<Item>,
    resources: Map<i128, Resource>,
    liquids: Seq<String>,
    n: int,
    m: int,
)
    requires
        n <= m,
        first_drink(contents, belt, inventory, resources, liquids, n).is_some(),
    ensures
        first_drink(contents, belt, inventory, resources, liquids, m) == first_drink(
            contents,
            belt,
            inventory,
            resources,
            liquids,
            n,
        ),
    decreases m - n,
{
    if n < m {
        lemma_first_drink_found(contents, belt, inventory, resources, liquids, n, m - 1);
    }
}

fn name_is_listed(names: &Vec<String>, name: &String) -> (result: bool)
    ensures
        result == is_listed(names@, name@),
{
    let mut i: usize = 0;
    while i < names.len()
        invariant
            i <= names.len(),
            forall|k: int| 0 <= k < i ==> (#[trigger] names[k])@ != name@,
        decreases names.len() - i,
    {
        if names[i] == *name {
            return true;
        }
        i += 1;
    }
    false
}

fn find_holding(
    items: &Vec<Item>,
    wanted: &String,
    resources: &OrderedMap<Resource>,
    liquids: &Vec<String>,
) -> (result: Option<i32>)
    requires
        resources.wf(),
    ensures
        result == first_holding(items@, wanted@, resources@, liquids@, items.len() as int),
{
    let mut i: usize = 0;
    while i < items.len()
        invariant
            i <= items.len(),
            resources.wf(),
            first_holding(items@, wanted@, resources@, liquids@, i as int).is_none(),
        decreases items.len() - i,
    {
        let item = &items[i];
        let mut holds = false;
        if let Some(content) = &item.content {
            if contains_str(content.name.as_str(), wanted.as_str()) {
                if let Some(resource) = resources.get(item.resource as i128) {
                    holds = name_is_listed(liquids, &resource.name);
                }
            }
        }
        if holds {
            proof {
                lemma_first_holding_found(
                    items@,
                    wanted@,
                    resources@,
                    liquids@,
                    i + 1,
                    items.len() as int,
                );
            }
            return Some(item.id);
        }
        i += 1;
    }
    None
}

/// The items of the inventory `id`, where it is known, in the order of
/// their ids.
pub open spec fn items_of(inventories: OrderedMap<OrderedMap<Item>>, id: Option<i32>) -> Seq<Item> {
    match id {
        Some(id) => if inventories@.contains_key(id as i128) {
            inventories@[id as i128].values@
        } else {
            Seq::empty()
        },
        None => Seq::empty(),
    }
}

/// What the world offers to drink by the kinds of content `contents`.
pub open spec fn drink_in<D: MapDb>(
    world: &PlayerWorld<'_, D>,
    liquids: Seq<String>,
    contents: Seq<ContentConfig>,
) -> Option<Drink> {
    first_drink(
        contents,
        items_of(world.player.widget_inventories, world.player@.belt_inventory_id),
        items_of(world.player.widget_inventories, world.player@.inventory_id),
        world.player.resources@,
        liquids,
        contents.len() as int,
    )
}

/// The number of the kind of content that is drunk, and the item it is
/// drunk from.
pub struct FoundDrink {
    pub item_id: i32,
    pub content: usize,
}

/// Looks through the belt and the inventory for something to drink.
pub fn find_container_with_content<D: MapDb>(
    world: &PlayerWorld<'_, D>,
    liquid_containers: &Vec<String>,
    contents: &Vec<ContentConfig>,
) -> (result: Option<FoundDrink>)
    requires
        world.wf(),
    ensures
        result.is_some() == drink_in(world, liquid_containers@, contents@).is_some(),
        result.is_some() ==> {
            let drink = drink_in(world, liquid_containers@, contents@).unwrap();
            &&& result.unwrap().content < contents.len()
            &&& drink.item_id == result.unwrap().item_id
            &&& drink.action == contents[result.unwrap().content as int].action@
            &&& drink.wait_interval == contents[result.unwrap().content as int].wait_interval
        },
{
    let empty: Vec<Item> = Vec::new();
    let belt: &Vec<Item> = match world.player_belt_items() {
        Some(items) => &items.values,
        None => &empty,
    };
    let inventory: &Vec<Item> = match world.player_inventory_items() {
        Some(items) => &items.values,
        None => &empty,
    };
    let mut i: usize = 0;
    while i < contents.len()
        invariant
            i <= contents.len(),
            world.wf(),
            belt@ == items_of(world.player.widget_inventories, world.player@.belt_inventory_id),
            inventory@ == items_of(world.player.widget_inventories, world.player@.inventory_id),
            first_drink(
                contents@,
                belt@,
                inventory@,
                world.player.resources@,
                liquid_containers@,
                i as int,
            ).is_none(),
        decreases contents.len() - i,
    {
        let config = &contents[i];
        let found = match find_holding(belt, &config.name, &world.player.resources, liquid_containers) {
            Some(id) => Some(id),
            None => find_holding(inventory, &config.name, &world.player.resources, liquid_containers),
        };
        if let Some(item_id) = found {
            proof {
                lemma_first_drink_found(
                    contents@,
                    belt@,
                    inventory@,
                    world.player.resources@,
                    liquid_containers@,
                    i + 1,
                    contents.len() as int,
                );
            }
            return Some(FoundDrink { item_id, content: i });
        }
        i += 1;
    }
    None
}

/// The mathematical value of a `Drinker`, without what it was set up with.
pub struct DrinkerData {
    pub open_belt: OpenBelt,
    pub sip: Option<UseItemData>,
    pub wait_interval: Option<u64>,
    pub last_sip: Option<u64>,
}

/// What a drinker sees of the world when it is asked.
pub struct DrinkerSight {
    pub stamina: i32,
    pub drink: Option<Drink>,
    pub belt: Option<i32>,
    pub window_open: bool,
    pub window_found: Option<i32>,
}

/// A sip from the item `item_id` that has not begun.
pub open spec fn new_sip(item_id: i32, action: Seq<char>, timeout: u64) -> UseItemData {
    UseItemData {
        item_id,
        action_name: action,
        timeout,
        last_message: None,
        action: None,
        ready: false,
        done: false,
        locked: false,
    }
}

impl DrinkerData {
    /// Whether the sip under way goes on: the item it drinks from is still
    /// what is found to drink from, and it is not done.
    pub open spec fn sip_goes_on(self, sight: DrinkerSight, now: u64) -> bool {
        &&& self.sip.is_some()
        &&& sight.drink.is_some()
        &&& sight.drink.unwrap().item_id == self.sip.unwrap().item_id
        &&& !(self.sip.unwrap().message_at(now) is Some && self.sip.unwrap().message_at(
            now,
        ).unwrap() is Done)
    }

    /// The drinker after it was asked at `now`, and what it sends.
    ///
    /// With the stamina at its greatest the drinking is done. A sip under
    /// way goes on. A sip that has ended, or a stamina above the
    /// threshold, starts the time between two sips. Within that time
    /// nothing is sent. Then the belt is opened; once it is open, or
    /// cannot be, a new sip begins from what is found to drink from.
    pub open spec fn step(
        self,
        max_stamina: i32,
        stamina_threshold: i32,
        sip_timeout: u64,
        sight: DrinkerSight,
        now: u64,
    ) -> (DrinkerData, Option<MessageData>) {
        if sight.stamina >= max_stamina {
            (DrinkerData { sip: None, ..self }, Some(MessageData::Done { task: "Drinker"@ }))
        } else if self.sip_goes_on(sight, now) {
            (
                DrinkerData { sip: Some(self.sip.unwrap().asked_at(now)), ..self },
                self.sip.unwrap().message_at(now),
            )
        } else if self.sip.is_some() || sight.stamina > stamina_threshold {
            (DrinkerData { sip: None, last_sip: Some(now), ..self }, None)
        } else if self.wait_interval.is_some() && waits(
            self.last_sip,
            now,
            self.wait_interval.unwrap(),
        ) {
            (self, None)
        } else {
            let looked = self.open_belt.looked(sight.belt, sight.window_open, sight.window_found);
            let belt_message = looked.message_at(now);
            let open_belt = looked.asked_at(now);
            if belt_message is Some
                && (belt_message.unwrap() is Done || belt_message.unwrap() is Error) {
                match sight.drink {
                    Some(drink) => {
                        let sip = new_sip(drink.item_id, drink.action, sip_timeout);
                        (
                            DrinkerData {
                                open_belt,
                                sip: Some(sip.asked_at(now)),
                                wait_interval: Some(drink.wait_interval),
                                ..self
                            },
                            sip.message_at(now),
                        )
                    },
                    None => (
                        DrinkerData { open_belt, sip: None, wait_interval: None, ..self },
                        None,
                    ),
                }
            } else {
                (DrinkerData { open_belt, ..self }, belt_message)
            }
        }
    }
}

impl View for Drinker {
    type V = DrinkerData;

    open spec fn view(&self) -> DrinkerData {
        DrinkerData {
            open_belt: self.open_belt,
            sip: match self.sip {
                Some(sip) => Some(sip@),
                None => None,
            },
            wait_interval: self.wait_interval,
            last_sip: self.last_sip,
        }
    }
}

impl Drinker {
    pub fn new(config: DrinkerConfig) -> (result: Self)
        ensures
            result.config == config,
            result@ == (DrinkerData {
                open_belt: OpenBelt {
                    timeout: config.open_belt_timeout,
                    last_message: None,
                    item_id: None,
                    widget_id: None,
                },
                sip: None,
                wait_interval: None,
                last_sip: None,
            }),
    {
        Drinker {
            open_belt: OpenBelt::new(config.open_belt_timeout),
            sip: None,
            wait_interval: None,
            last_sip: None,
            config,
        }
    }

    /// What the drinker sees of the world.
    pub open spec fn sight<D: MapDb>(&self, world: &PlayerWorld<'_, D>) -> DrinkerSight {
        let belt = if world.player_equipment.slots@.contains_key(
            world.player_equipment.config.belt as i128,
        ) {
            Some(world.player_equipment.slots@[world.player_equipment.config.belt as i128])
        } else {
            None
        };
        DrinkerSight {
            stamina: world.player_stamina,
            drink: drink_in(world, self.config.liquid_containers@, self.config.contents@),
            belt,
            window_open: self.open_belt.item_id == belt && self.open_belt.widget_id.is_some()
                && world.player.widgets@.contains_key(self.open_belt.widget_id.unwrap() as i128),
            window_found: belt_window(
                world.player.widgets.values@,
                world.game_ui_id,
                world.player.widgets.values.len() as int,
            ),
        }
    }

    /// Whether a drinker in the state `self`, asked in `world` at the
    /// time `now`, says `message` and is `after` from then on: both are
    /// what the step gives for what the drinker sees of the world.
    pub open spec fn answers<D: MapDb>(
        &self,
        world: &PlayerWorld<'_, D>,
        now: u64,
        after: &Self,
        message: Option<MessageData>,
    ) -> bool {
        &&& after.config == self.config
        &&& (after@, message) == self@.step(
            self.config.max_stamina,
            self.config.stamina_threshold,
            self.config.sip_timeout,
            self.sight(world),
            now,
        )
    }

    /// Asks the drinker for its next message at the time `now`.
    pub fn next_message<D: MapDb>(&mut self, world: &PlayerWorld<'_, D>, now: u64) -> (result:
        Option<Message>)
        requires
            world.wf(),
        ensures
            old(self).answers(world, now, final(self), message_view(result)),
    {
        let ghost sight = self.sight(world);
        let ghost start = self@;
        if world.player_stamina >= self.config.max_stamina {
            self.sip = None;
            return Some(Message::done("Drinker"));
        }
        let found = find_container_with_content(
            world,
            &self.config.liquid_containers,
            &self.config.contents,
        );
        let mut reset_sip = false;
        let mut sent: Option<Option<Message>> = None;
        match &mut self.sip {
            Some(sip) => {
                let matches = match &found {
                    Some(drink) => drink.item_id == sip.item_id,
                    None => false,
                };
                if matches {
                    let message = sip.get_next_message(now);
                    let done = match &message {
                        Some(message) => message.is_done(),
                        None => false,
                    };
                    if !done {
                        sent = Some(message);
                    }
                }
                reset_sip = true;
            },
            None => {},
        }
        if let Some(message) = sent {
            return message;
        }
        if reset_sip || world.player_stamina > self.config.stamina_threshold {
            self.sip = None;
            self.last_sip = Some(now);
            return None;
        }
        let waiting = match self.wait_interval {
            Some(interval) => crate::actions::is_waiting(self.last_sip, now, interval),
            None => false,
        };
        if waiting {
            return None;
        }
        let belt_message = self.open_belt.get_next_message(world, now);
        let goes_on = match &belt_message {
            Some(message) => match message {
                Message::Done { .. } => true,
                Message::Error { .. } => true,
                _ => false,
            },
            None => false,
        };
        if !goes_on {
            return belt_message;
        }
        match found {
            Some(drink) => {
                let mut sip = UseItem::new(
                    drink.item_id,
                    self.config.contents[drink.content].action.clone(),
                    self.config.sip_timeout,
                );
                let message = sip.get_next_message(now);
                self.sip = Some(sip);
                self.wait_interval = Some(self.config.contents[drink.content].wait_interval);
                message
            },
            None => {
                self.sip = None;
                self.wait_interval = None;
                None
            },
        }
    }
}

impl Task for Drinker {
    open spec fn wf(&self) -> bool {
        true
    }

    open spec fn told(&self, map_view_id: i32, event: Event, after: &Self) -> bool {
        &&& after.config == self.config
        &&& after@ == (DrinkerData {
            sip: match self@.sip {
                Some(sip) => Some(sip.after(event)),
                None => None,
            },
            ..self@
        })
    }

    fn name(&self) -> (result: String)
        ensures
            result@ == "Drinker"@,
    {
        "Drinker".to_owned()
    }

    fn get_next_message<D: MapDb, G: Geometry>(
        &mut self,
        world: &PlayerWorld<'_, D>,
        context: &TaskContext<'_, G>,
    ) -> (result: Option<Message>)
        ensures
            old(self).answers(world, context.now, final(self), message_view(result)),
    {
        self.next_message(world, context.now)
    }

    fn update<D: MapDb>(&mut self, world: &PlayerWorld<'_, D>, update: &Update) {
        match &mut self.sip {
            Some(sip) => {
                sip.update(update);
            },
            None => {},
        }
    }

    fn restore<D: MapDb>(&mut self, world: &PlayerWorld<'_, D>) {
    }
}

} // verus!
