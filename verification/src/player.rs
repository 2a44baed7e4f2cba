//! The player as the widgets, resources and objects of a session show it.

use vstd::prelude::*;
use crate::coords::{tile_pos_to_grid_pos, tile_pos_to_grid_pos_spec};
use crate::objects::Objects;
use crate::ordered_map::OrderedMap;
use crate::protocol::{
    duplicate_values, str_equal, values_data, Event, Update, Value, ValueData, WorldPos,
};
use crate::stuck_detector::StuckDetector;
use crate::vec2::Vec2i;

verus! {

/// The resource names by which the parts of the player are told.
#[derive(Debug, Clone)]
pub struct PlayerConfig {
    pub meters: MetersConfig,
    pub equipment: EquipmentConfig,
    pub items: ItemsConfig,
}

/// The resource names that tell what an item holds.
#[derive(Debug, Clone)]
pub struct ItemsConfig {
    pub content: String,
    pub content_name: String,
    pub quality: String,
}

/// The resource name of the stamina meter.
#[derive(Debug, Clone)]
pub struct MetersConfig {
    pub stamina: String,
}

/// The number of the equipment slot that holds the belt.
#[derive(Debug, Clone, Copy)]
pub struct EquipmentConfig {
    pub belt: usize,
}

/// A named resource.
#[derive(Debug, Clone, PartialEq)]
pub struct Resource {
    pub id: i32,
    pub version: i32,
    pub name: String,
}

/// The mathematical value of a `Resource`.
pub struct ResourceData {
    pub id: i32,
    pub version: i32,
    pub name: Seq<char>,
}

impl View for Resource {
    type V = ResourceData;

    open spec fn view(&self) -> ResourceData {
        ResourceData { id: self.id, version: self.version, name: self.name@ }
    }
}

/// A node of the user interface.
#[derive(Debug, Clone, PartialEq)]
pub struct Widget {
    pub id: i32,
    pub parent: i32,
    pub kind: String,
    pub pargs: Vec<Value>,
    pub cargs: Vec<Value>,
    pub pargs_add: Vec<Value>,
}

/// The mathematical value of a `Widget`.
pub struct WidgetData {
    pub id: i32,
    pub parent: i32,
    pub kind: Seq<char>,
    pub pargs: Seq<ValueData>,
    pub cargs: Seq<ValueData>,
    pub pargs_add: Seq<ValueData>,
}

impl View for Widget {
    type V = WidgetData;

    open spec fn view(&self) -> WidgetData {
        WidgetData {
            id: self.id,
            parent: self.parent,
            kind: self.kind@,
            pargs: values_data(self.pargs@),
            cargs: values_data(self.cargs@),
            pargs_add: values_data(self.pargs_add@),
        }
    }
}

impl Widget {
    /// A widget equal to this one.
    pub fn duplicate(&self) -> (result: Widget)
        ensures
            result@ == self@,
    {
        Widget {
            id: self.id,
            parent: self.parent,
            kind: self.kind.clone(),
            pargs: duplicate_values(&self.pargs),
            cargs: duplicate_values(&self.cargs),
            pargs_add: duplicate_values(&self.pargs_add),
        }
    }
}

/// What an item holds. `quality` is a single-precision number as its bit
/// pattern.
#[derive(Debug, Clone, PartialEq)]
pub struct Content {
    pub name: String,
    pub quality: u32,
}

/// The mathematical value of a `Content`.
pub struct ContentData {
    pub name: Seq<char>,
    pub quality: u32,
}

/// An item in an inventory or in the hand.
#[derive(Debug, Clone, PartialEq)]
pub struct Item {
    pub id: i32,
    pub resource: i32,
    pub content: Option<Content>,
    pub position: Option<Vec2i>,
}

/// The mathematical value of an `Item`.
pub struct ItemData {
    pub id: i32,
    pub resource: i32,
    pub content: Option<ContentData>,
    pub position: Option<Vec2i>,
}

impl View for Item {
    type V = ItemData;

    open spec fn view(&self) -> ItemData {
        ItemData {
            id: self.id,
            resource: self.resource,
            content: match self.content {
                Some(content) => Some(ContentData { name: content.name@, quality: content.quality }),
                None => None,
            },
            position: self.position,
        }
    }
}

impl Item {
    /// An item equal to this one.
    pub fn duplicate(&self) -> (result: Item)
        ensures
            result@ == self@,
    {
        Item {
            id: self.id,
            resource: self.resource,
            content: match &self.content {
                Some(content) => Some(
                    Content { name: content.name.clone(), quality: content.quality },
                ),
                None => None,
            },
            position: self.position,
        }
    }
}

/// A grid that the player was told of: its id and its position.
#[derive(Debug, Clone, Copy, PartialEq, Eq, Structural)]
pub struct PlayerGrid {
    pub id: i64,
    pub position: Vec2i,
}

/// The resource id of the stamina meter, once its resource was seen.
#[derive(Debug, Clone)]
pub struct Meters {
    pub config: MetersConfig,
    pub stamina: Option<i32>,
}

impl Meters {
    pub fn new(config: MetersConfig) -> (result: Self)
        ensures
            result.config == config,
            result.stamina.is_none(),
    {
        Meters { config, stamina: None }
    }

    /// The stamina resource after `resource` was seen.
    pub open spec fn stamina_after(self, resource: ResourceData) -> Option<i32> {
        if resource.name == self.config.stamina@ {
            Some(resource.id)
        } else {
            self.stamina
        }
    }

    /// Takes note of `resource` where it is the stamina meter.
    pub fn update(&mut self, resource: &Resource)
        ensures
            final(self).config == old(self).config,
            final(self).stamina == old(self).stamina_after(resource@),
    {
        if resource.name == self.config.stamina {
            self.stamina = Some(resource.id);
        }
    }

    /// The meters as the resources `resources`, taken in order, show them.
    pub fn from_resources(resources: &Vec<Resource>, config: MetersConfig) -> (result: Self)
        ensures
            result.config == config,
            result.stamina == Self::stamina_from(config.stamina@, resources@, resources.len() as int),
    {
        let mut result = Meters::new(config);
        let mut i: usize = 0;
        while i < resources.len()
            invariant
                i <= resources.len(),
                result.config == config,
                result.stamina == Self::stamina_from(config.stamina@, resources@, i as int),
            decreases resources.len() - i,
        {
            result.update(&resources[i]);
            i += 1;
        }
        result
    }

    /// The id of the last of the first `n` resources that carries the name.
    pub open spec fn stamina_from(name: Seq<char>, resources: Seq<Resource>, n: int) -> Option<i32>
        decreases n,
    {
        if n <= 0 {
            None
        } else if resources[n - 1].name@ == name {
            Some(resources[n - 1].id)
        } else {
            Self::stamina_from(name, resources, n - 1)
        }
    }
}

/// The resource ids that tell what an item holds, once their resources
/// were seen.
#[derive(Debug, Clone)]
pub struct Items {
    pub config: ItemsConfig,
    pub content: Option<i32>,
    pub content_name: Option<i32>,
    pub quality: Option<i32>,
}

/// The three resource ids of `Items`.
pub struct ItemIds {
    pub content: Option<i32>,
    pub content_name: Option<i32>,
    pub quality: Option<i32>,
}

impl Items {
    pub fn new(config: ItemsConfig) -> (result: Self)
        ensures
            result.config == config,
            result.ids() == (ItemIds { content: None, content_name: None, quality: None }),
    {
        Items { config, content: None, content_name: None, quality: None }
    }

    /// The three resource ids.
    pub open spec fn ids(self) -> ItemIds {
        ItemIds { content: self.content, content_name: self.content_name, quality: self.quality }
    }

    /// The ids after a resource was seen: the first of the three names that
    /// the resource carries takes its id.
    pub open spec fn ids_after(config: ItemsConfig, ids: ItemIds, resource: ResourceData) -> ItemIds {
        if resource.name == config.content@ {
            ItemIds { content: Some(resource.id), ..ids }
        } else if resource.name == config.content_name@ {
            ItemIds { content_name: Some(resource.id), ..ids }
        } else if resource.name == config.quality@ {
            ItemIds { quality: Some(resource.id), ..ids }
        } else {
            ids
        }
    }

    /// Takes note of `resource` where it carries one of the three names.
    pub fn update(&mut self, resource: &Resource)
        ensures
            final(self).config == old(self).config,
            final(self).ids() == Self::ids_after(old(self).config, old(self).ids(), resource@),
    {
        if resource.name == self.config.content {
            self.content = Some(resource.id);
        } else if resource.name == self.config.content_name {
            self.content_name = Some(resource.id);
        } else if resource.name == self.config.quality {
            self.quality = Some(resource.id);
        }
    }

    /// The ids after the first `n` resources were seen.
    pub open spec fn ids_from(config: ItemsConfig, resources: Seq<Resource>, n: int) -> ItemIds
        decreases n,
    {
        if n <= 0 {
            ItemIds { content: None, content_name: None, quality: None }
        } else {
            Self::ids_after(config, Self::ids_from(config, resources, n - 1), resources[n - 1]@)
        }
    }

    /// The ids as the resources `resources`, taken in order, show them.
    pub fn from_resources(resources: &Vec<Resource>, config: ItemsConfig) -> (result: Self)
        ensures
            result.config == config,
            result.ids() == Self::ids_from(config, resources@, resources.len() as int),
    {
        let mut result = Items::new(config);
        let mut i: usize = 0;
        while i < resources.len()
            invariant
                i <= resources.len(),
                result.config == config,
                result.ids() == Self::ids_from(config, resources@, i as int),
            decreases resources.len() - i,
        {
            result.update(&resources[i]);
            i += 1;
        }
        result
    }
}

/// The key of an equipment slot: the slot number as an address-sized
/// unsigned number of 64 bits.
pub open spec fn slot_key(index: i32) -> int {
    if index >= 0 {
        index as int
    } else {
        index + 0x1_0000_0000_0000_0000
    }
}

/// The equipment of the player: the widget that shows it and the item in
/// each slot.
pub struct Equipment {
    pub config: EquipmentConfig,
    pub widget_id: Option<i32>,
    pub slots: OrderedMap<i32>,
}

impl Equipment {
    pub fn new(config: EquipmentConfig) -> (result: Self)
        ensures
            result.config == config,
            result.widget_id.is_none(),
            result.slots.wf(),
            result.slots@ == Map::<i128, i32>::empty(),
    {
        Equipment { config, widget_id: None, slots: OrderedMap::new() }
    }

    /// The slots after an item with the arguments `pargs` was put on: an
    /// integer in front names its slot.
    pub open spec fn slots_after(slots: Map<i128, i32>, id: i32, pargs: Seq<ValueData>) -> Map<
        i128,
        i32,
    > {
        if pargs.len() >= 1 {
            match pargs[0] {
                ValueData::Int(index) => slots.insert(slot_key(index) as i128, id),
                _ => slots,
            }
        } else {
            slots
        }
    }

    /// Puts the item `id` into the slot that `pargs` names.
    pub fn add_item(&mut self, id: i32, pargs: &Vec<Value>)
        requires
            old(self).slots.wf(),
        ensures
            final(self).slots.wf(),
            final(self).config == old(self).config,
            final(self).widget_id == old(self).widget_id,
            final(self).slots@ == Self::slots_after(old(self).slots@, id, values_data(pargs@)),
    {
        if pargs.len() >= 1 {
            assert(values_data(pargs@)[0] == pargs@[0].data());
            if let Value::Int { value: index } = &pargs[0] {
                let key: i128 = if *index >= 0 {
                    *index as i128
                } else {
                    *index as i128 + 0x1_0000_0000_0000_0000
                };
                self.slots.insert(key, id);
            }
        }
    }
}

/// The equipment of a player whose equipment widget is known.
pub struct PlayerEquipment<'a> {
    pub config: &'a EquipmentConfig,
    pub slots: &'a OrderedMap<i32>,
}

impl<'a> PlayerEquipment<'a> {
    /// The item in the belt slot.
    pub fn belt(&self) -> (result: Option<i32>)
        requires
            self.slots.wf(),
        ensures
            result.is_some() == self.slots@.contains_key(self.config.belt as i128),
            result.is_some() ==> result.unwrap() == self.slots@[self.config.belt as i128],
    {
        match self.slots.get(self.config.belt as i128) {
            Some(id) => Some(*id),
            None => None,
        }
    }
}

/// The stamina of the player: the widget that shows it and its value.
#[derive(Debug, Clone, Copy, PartialEq, Eq, Structural)]
pub struct Stamina {
    pub widget_id: Option<i32>,
    pub value: Option<i32>,
}

impl Stamina {
    /// The stamina widget after the widget `id` was made with the
    /// arguments `cargs`: a widget whose first argument is the stamina
    /// resource is the stamina widget.
    pub open spec fn widget_after(self, resource: i32, id: i32, cargs: Seq<ValueData>) -> Option<
        i32,
    > {
        if cargs.len() >= 1 && cargs[0] == ValueData::Int(resource) {
            Some(id)
        } else {
            self.widget_id
        }
    }

    /// Takes note of a new meter widget.
    pub fn update_widget_id(&mut self, resource: i32, id: i32, cargs: &Vec<Value>)
        ensures
            final(self).value == old(self).value,
            final(self).widget_id == old(self).widget_after(resource, id, values_data(cargs@)),
    {
        if cargs.len() >= 1 {
            assert(values_data(cargs@)[0] == cargs@[0].data());
            if cargs[0].is_int(resource) {
                self.widget_id = Some(id);
            }
        }
    }

    /// The value that a `set` message to the widget `id` gives: the second
    /// argument, where the widget is the stamina widget and the argument an
    /// integer.
    pub open spec fn value_set(self, id: i32, args: Seq<ValueData>) -> Option<i32> {
        if self.widget_id == Some(id) && args.len() >= 2 {
            match args[1] {
                ValueData::Int(value) => Some(value),
                _ => None,
            }
        } else {
            None
        }
    }

    /// Takes the value of a `set` message; `true` where it took one.
    pub fn update_value(&mut self, id: i32, args: &Vec<Value>) -> (result: bool)
        ensures
            final(self).widget_id == old(self).widget_id,
            result == old(self).value_set(id, values_data(args@)).is_some(),
            final(self).value == if result {
                old(self).value_set(id, values_data(args@))
            } else {
                old(self).value
            },
    {
        if self.widget_id == Some(id) && args.len() >= 2 {
            assert(values_data(args@)[1] == args@[1].data());
            if let Value::Int { value } = &args[1] {
                self.value = Some(*value);
                return true;
            }
        }
        false
    }
}

/// A list value is the list of the values it holds.
pub proof fn lemma_list_data(value: Value)
    requires
        value is List,
    ensures
        value.data() == ValueData::List(values_data(value->List_value@)),
{
    assert(value.data()->List_0 =~= values_data(value->List_value@));
}

/// The item that a widget with the arguments `cargs` stands for: an
/// integer in front names its resource.
pub open spec fn item_made(id: i32, cargs: Seq<ValueData>, position: Option<Vec2i>) -> Option<
    ItemData,
> {
    if cargs.len() >= 1 {
        match cargs[0] {
            ValueData::Int(resource) => Some(ItemData { id, resource, content: None, position }),
            _ => None,
        }
    } else {
        None
    }
}

fn make_item(id: i32, cargs: &Vec<Value>, position: Option<Vec2i>) -> (result: Option<Item>)
    ensures
        result.is_some() == item_made(id, values_data(cargs@), position).is_some(),
        result.is_some() ==> result.unwrap()@ == item_made(
            id,
            values_data(cargs@),
            position,
        ).unwrap(),
{
    if cargs.len() >= 1 {
        assert(values_data(cargs@)[0] == cargs@[0].data());
        if let Value::Int { value } = &cargs[0] {
            return Some(Item { id, resource: *value, content: None, position });
        }
    }
    None
}

/// The first coordinate among the values from `from` on.
pub open spec fn first_coord(values: Seq<ValueData>, from: int) -> Option<Vec2i>
    decreases values.len() - from,
{
    if from < 0 || from >= values.len() {
        None
    } else {
        match values[from] {
            ValueData::Coord(coord) => Some(coord),
            _ => first_coord(values, from + 1),
        }
    }
}

fn find_coord(values: &Vec<Value>) -> (result: Option<Vec2i>)
    ensures
        result == first_coord(values_data(values@), 0),
{
    let mut i: usize = 0;
    while i < values.len()
        invariant
            i <= values.len(),
            first_coord(values_data(values@), i as int) == first_coord(values_data(values@), 0),
        decreases values.len() - i,
    {
        assert(values_data(values@)[i as int] == values@[i as int].data());
        if let Value::Coord { value } = &values[i] {
            return Some(*value);
        }
        i += 1;
    }
    None
}

/// The string filed under `resource`: the second element of the first list
/// from `from` on that has `resource` in front and a string behind it.
pub open spec fn string_under(values: Seq<ValueData>, resource: i32, from: int) -> Option<
    Seq<char>,
>
    decreases values.len() - from,
{
    if from < 0 || from >= values.len() {
        None
    } else {
        match values[from] {
            ValueData::List(pair) => if pair.len() >= 2 && pair[0] == ValueData::Int(resource) {
                match pair[1] {
                    ValueData::Str(text) => Some(text),
                    _ => string_under(values, resource, from + 1),
                }
            } else {
                string_under(values, resource, from + 1)
            },
            _ => string_under(values, resource, from + 1),
        }
    }
}

/// The single-precision number filed under `resource`, as `string_under`
/// finds a string.
pub open spec fn float_under(values: Seq<ValueData>, resource: i32, from: int) -> Option<u32>
    decreases values.len() - from,
{
    if from < 0 || from >= values.len() {
        None
    } else {
        match values[from] {
            ValueData::List(pair) => if pair.len() >= 2 && pair[0] == ValueData::Int(resource) {
                match pair[1] {
                    ValueData::Float32(bits) => Some(bits),
                    _ => float_under(values, resource, from + 1),
                }
            } else {
                float_under(values, resource, from + 1)
            },
            _ => float_under(values, resource, from + 1),
        }
    }
}

fn get_string(values: &Vec<Value>, resource: i32) -> (result: Option<&String>)
    ensures
        result.is_some() == string_under(values_data(values@), resource, 0).is_some(),
        result.is_some() ==> result.unwrap()@ == string_under(
            values_data(values@),
            resource,
            0,
        ).unwrap(),
{
    let mut i: usize = 0;
    while i < values.len()
        invariant
            i <= values.len(),
            string_under(values_data(values@), resource, i as int) == string_under(
                values_data(values@),
                resource,
                0,
            ),
        decreases values.len() - i,
    {
        assert(values_data(values@)[i as int] == values@[i as int].data());
        if let Value::List { value: pair } = &values[i] {
            proof {
                lemma_list_data(values@[i as int]);
            }
            if pair.len() >= 2 {
                assert(values_data(pair@)[0] == pair@[0].data());
                assert(values_data(pair@)[1] == pair@[1].data());
                if pair[0].is_int(resource) {
                    if let Value::Str { value } = &pair[1] {
                        return Some(value);
                    }
                }
            }
        }
        i += 1;
    }
    None
}

fn get_float32(values: &Vec<Value>, resource: i32) -> (result: Option<u32>)
    ensures
        result == float_under(values_data(values@), resource, 0),
{
    let mut i: usize = 0;
    while i < values.len()
        invariant
            i <= values.len(),
            float_under(values_data(values@), resource, i as int) == float_under(
                values_data(values@),
                resource,
                0,
            ),
        decreases values.len() - i,
    {
        assert(values_data(values@)[i as int] == values@[i as int].data());
        if let Value::List { value: pair } = &values[i] {
            proof {
                lemma_list_data(values@[i as int]);
            }
            if pair.len() >= 2 {
                assert(values_data(pair@)[0] == pair@[0].data());
                assert(values_data(pair@)[1] == pair@[1].data());
                if pair[0].is_int(resource) {
                    if let Value::Float32 { value } = &pair[1] {
                        return Some(*value);
                    }
                }
            }
        }
        i += 1;
    }
    None
}

/// What the arguments of a tooltip message say an item holds: the third
/// argument is a list with the content resource in front and, behind it, a
/// list that files a name and a quality under their resources.
pub open spec fn content_told(args: Seq<ValueData>, ids: ItemIds) -> Option<ContentData> {
    if args.len() >= 3 && ids.content.is_some() && ids.content_name.is_some()
        && ids.quality.is_some() {
        match args[2] {
            ValueData::List(content) => if content.len() >= 2 && content[0] == ValueData::Int(
                ids.content.unwrap(),
            ) {
                match content[1] {
                    ValueData::List(parameters) => match (
                        string_under(parameters, ids.content_name.unwrap(), 0),
                        float_under(parameters, ids.quality.unwrap(), 0),
                    ) {
                        (Some(name), Some(quality)) => Some(ContentData { name, quality }),
                        _ => None,
                    },
                    _ => None,
                }
            } else {
                None
            },
            _ => None,
        }
    } else {
        None
    }
}

/// Whether a tooltip message changes an item: it tells a content, or the
/// item held one.
pub open spec fn tooltip_changes(item: ItemData, args: Seq<ValueData>, ids: ItemIds) -> bool {
    content_told(args, ids).is_some() || item.content.is_some()
}

fn decode_content(args: &Vec<Value>, items: &Items) -> (result: Option<Content>)
    ensures
        result.is_some() == content_told(values_data(args@), items.ids()).is_some(),
        result.is_some() ==> (ContentData {
            name: result.unwrap().name@,
            quality: result.unwrap().quality,
        }) == content_told(values_data(args@), items.ids()).unwrap(),
{
    if args.len() >= 3 {
        assert(values_data(args@)[2] == args@[2].data());
        if let Value::List { value: content } = &args[2] {
            proof {
                lemma_list_data(args@[2]);
            }
            if let (Some(content_res), Some(content_name_res), Some(quality_res)) = (
                items.content,
                items.content_name,
                items.quality,
            ) {
                if content.len() >= 2 {
                    assert(values_data(content@)[0] == content@[0].data());
                    assert(values_data(content@)[1] == content@[1].data());
                    if content[0].is_int(content_res) {
                        if let Value::List { value: parameters } = &content[1] {
                            proof {
                                lemma_list_data(content@[1]);
                            }
                            let name = get_string(parameters, content_name_res);
                            let quality = get_float32(parameters, quality_res);
                            if let (Some(name), Some(quality)) = (name, quality) {
                                return Some(Content { name: name.clone(), quality });
                            }
                        }
                    }
                }
            }
        }
    }
    None
}

/// Tells an item of a tooltip: the item holds what the tooltip says it
/// holds, or nothing where the tooltip tells of no content. Says whether
/// the item changed or was told of a content.
pub fn update_item(args: &Vec<Value>, items: &Items, item: &mut Item) -> (result: bool)
    ensures
        result == tooltip_changes(old(item)@, values_data(args@), items.ids()),
        final(item)@ == (ItemData {
            content: content_told(values_data(args@), items.ids()),
            ..old(item)@
        }),
{
    match decode_content(args, items) {
        Some(content) => {
            item.content = Some(content);
            true
        },
        None => {
            if item.content.is_some() {
                item.content = None;
                true
            } else {
                false
            }
        },
    }
}

/// The items of an inventory by id.
pub open spec fn item_map(inventory: OrderedMap<Item>) -> Map<i32, ItemData> {
    Map::new(
        |id: i32| inventory@.contains_key(id as i128),
        |id: i32| inventory@[id as i128]@,
    )
}

/// All that is known of the player, as mathematical values.
pub struct PlayerView {
    pub map_view_id: Option<i32>,
    pub game_ui_id: Option<i32>,
    pub inventory_id: Option<i32>,
    pub belt_id: Option<i32>,
    pub belt_inventory_id: Option<i32>,
    pub name: Option<Seq<char>>,
    pub object_id: Option<i64>,
    pub grid_id: Option<i64>,
    pub position: Option<WorldPos>,
    pub widgets: Map<i32, WidgetData>,
    pub map_grids: Seq<PlayerGrid>,
    pub resources: Map<i32, ResourceData>,
    pub stuck_detector: StuckDetector,
    pub is_stuck: bool,
    pub stamina_resource: Option<i32>,
    pub item_ids: ItemIds,
    pub stamina: Stamina,
    pub equipment_widget: Option<i32>,
    pub slots: Map<i128, i32>,
    pub inventories: Map<i32, Map<i32, ItemData>>,
    pub hand: Option<ItemData>,
    pub stamina_name: Seq<char>,
    pub items_config: ItemsConfig,
    pub belt_slot: usize,
}

/// The id of the first of the grids, from `from` on, that stands at
/// `position`.
pub open spec fn grid_standing_at(grids: Seq<PlayerGrid>, position: Vec2i, from: int) -> Option<i64>
    decreases grids.len() - from,
{
    if from < 0 || from >= grids.len() {
        None
    } else if grids[from].position == position {
        Some(grids[from].id)
    } else {
        grid_standing_at(grids, position, from + 1)
    }
}

/// The grids without those with the id `id`, among the first `n`.
pub open spec fn grids_without(grids: Seq<PlayerGrid>, id: i64, n: int) -> Seq<PlayerGrid>
    decreases n,
{
    if n <= 0 {
        Seq::empty()
    } else if grids[n - 1].id == id {
        grids_without(grids, id, n - 1)
    } else {
        grids_without(grids, id, n - 1).push(grids[n - 1])
    }
}

impl PlayerView {
    /// The player after the object `object_id` was seen at `position` at
    /// the time `now`: where it is the player's object, the player stands
    /// there, in the grid known at that place if one is, and is stuck
    /// where the stuck detector says so.
    pub open spec fn seen_at(self, object_id: i64, position: WorldPos, now: u64) -> PlayerView {
        if self.object_id == Some(object_id) {
            PlayerView {
                position: Some(position),
                grid_id: match grid_standing_at(
                    self.map_grids,
                    tile_pos_to_grid_pos_spec(position.tile),
                    0,
                ) {
                    Some(id) => Some(id),
                    None => self.grid_id,
                },
                is_stuck: self.stuck_detector.stuck(position.point, now),
                stuck_detector: StuckDetector {
                    last_position: Some(position.point),
                    last_update: Some(now),
                },
                ..self
            }
        } else {
            self
        }
    }

    /// The player after a widget was made.
    pub open spec fn with_widget(
        self,
        objects: Objects,
        id: i32,
        kind: Seq<char>,
        parent: i32,
        pargs: Seq<ValueData>,
        cargs: Seq<ValueData>,
        now: u64,
    ) -> PlayerView {
        let widgets = self.widgets.insert(
            id,
            WidgetData { id, parent, kind, pargs, cargs, pargs_add: Seq::empty() },
        );
        if kind == "gameui"@ {
            let named = PlayerView {
                game_ui_id: Some(id),
                name: if cargs.len() >= 2 {
                    match cargs[0] {
                        ValueData::Str(name) => Some(name),
                        _ => self.name,
                    }
                } else {
                    self.name
                },
                widgets,
                ..self
            };
            if cargs.len() >= 2 {
                match cargs[1] {
                    ValueData::Int(object) => {
                        let linked = PlayerView { object_id: Some(object as i64), ..named };
                        match objects.live(object as i64) {
                            Some(seen) => linked.seen_at(seen.id, seen.position, now),
                            None => linked,
                        }
                    },
                    _ => named,
                }
            } else {
                named
            }
        } else if kind == "mapview"@ {
            PlayerView { map_view_id: Some(id), widgets, ..self }
        } else if kind == "im"@ {
            PlayerView {
                stamina: match self.stamina_resource {
                    Some(resource) => Stamina {
                        widget_id: self.stamina.widget_after(resource, id, cargs),
                        ..self.stamina
                    },
                    None => self.stamina,
                },
                widgets,
                ..self
            }
        } else if kind == "epry"@ {
            PlayerView { equipment_widget: Some(id), widgets, ..self }
        } else if kind == "item"@ {
            if Some(parent) == self.equipment_widget {
                PlayerView { slots: Equipment::slots_after(self.slots, id, pargs), widgets, ..self }
            } else if Some(parent) == self.game_ui_id {
                PlayerView { hand: item_made(id, cargs, None), widgets, ..self }
            } else if self.inventories.contains_key(parent) {
                match item_made(id, cargs, first_coord(pargs, 0)) {
                    Some(item) => PlayerView {
                        inventories: self.inventories.insert(
                            parent,
                            self.inventories[parent].insert(id, item),
                        ),
                        widgets,
                        ..self
                    },
                    None => PlayerView { widgets, ..self },
                }
            } else {
                PlayerView { widgets, ..self }
            }
        } else if kind == "wnd"@ {
            PlayerView {
                belt_id: if cargs.len() >= 2 && cargs[1] == ValueData::Str("Belt"@) {
                    Some(id)
                } else {
                    self.belt_id
                },
                widgets,
                ..self
            }
        } else if kind == "inv"@ {
            let inventories = self.inventories.insert(id, Map::empty());
            if Some(parent) == self.game_ui_id && pargs.len() >= 1 && pargs[0] == ValueData::Str(
                "inv"@,
            ) {
                PlayerView { inventory_id: Some(id), inventories, widgets, ..self }
            } else if Some(parent) == self.belt_id {
                PlayerView { belt_inventory_id: Some(id), inventories, widgets, ..self }
            } else {
                PlayerView { inventories, widgets, ..self }
            }
        } else {
            PlayerView { widgets, ..self }
        }
    }
}

impl PlayerView {
    /// Whether a tooltip message for the item `id` changes that item in the
    /// inventory `inventory`.
    pub open spec fn tooltip_changes_in(
        self,
        inventory: i32,
        id: i32,
        args: Seq<ValueData>,
    ) -> bool {
        &&& self.inventories.contains_key(inventory)
        &&& self.inventories[inventory].contains_key(id)
        &&& tooltip_changes(self.inventories[inventory][id], args, self.item_ids)
    }

    /// Whether `inventory` is the first inventory, in the order of the ids,
    /// in which a tooltip message for the item `id` changes that item.
    pub open spec fn first_changed_by_tooltip(
        self,
        inventory: i32,
        id: i32,
        args: Seq<ValueData>,
    ) -> bool {
        &&& self.tooltip_changes_in(inventory, id, args)
        &&& forall|other: i32| other < inventory ==> !self.tooltip_changes_in(other, id, args)
    }

    /// Whether a tooltip message for the item `id` changes the hand.
    pub open spec fn tooltip_changes_hand(self, id: i32, args: Seq<ValueData>) -> bool {
        match self.hand {
            Some(item) => item.id == id && tooltip_changes(item, args, self.item_ids),
            None => false,
        }
    }

    /// The player after a tooltip message for the item `id`: the item in
    /// the hand, else the first item in an inventory, that the message
    /// changes holds what the message tells.
    pub open spec fn with_tooltip(self, id: i32, args: Seq<ValueData>) -> PlayerView {
        if self.tooltip_changes_hand(id, args) {
            PlayerView {
                hand: Some(
                    ItemData { content: content_told(args, self.item_ids), ..self.hand.unwrap() },
                ),
                ..self
            }
        } else if exists|inventory: i32| self.first_changed_by_tooltip(inventory, id, args) {
            let inventory = choose|inventory: i32|
                self.first_changed_by_tooltip(inventory, id, args);
            PlayerView {
                inventories: self.inventories.insert(
                    inventory,
                    self.inventories[inventory].insert(
                        id,
                        ItemData {
                            content: content_told(args, self.item_ids),
                            ..self.inventories[inventory][id]
                        },
                    ),
                ),
                ..self
            }
        } else {
            self
        }
    }

    /// The player after a message from the user interface.
    pub open spec fn with_ui_message(self, id: i32, msg: Seq<char>, args: Seq<ValueData>) -> PlayerView {
        if msg == "plob"@ {
            if Some(id) == self.map_view_id && args.len() > 0 {
                match args[0] {
                    ValueData::Nil => PlayerView { object_id: None, ..self },
                    ValueData::Int(object) => PlayerView { object_id: Some(object as i64), ..self },
                    _ => self,
                }
            } else {
                self
            }
        } else if msg == "set"@ {
            match self.stamina.value_set(id, args) {
                Some(value) => PlayerView {
                    stamina: Stamina { value: Some(value), ..self.stamina },
                    ..self
                },
                None => self,
            }
        } else if msg == "tt"@ {
            self.with_tooltip(id, args)
        } else {
            self
        }
    }

    /// Whether a message from the user interface changes the player.
    pub open spec fn ui_message_changes(self, id: i32, msg: Seq<char>, args: Seq<ValueData>) -> bool {
        if msg == "plob"@ {
            Some(id) == self.map_view_id && args.len() > 0 && (args[0] is Nil || args[0] is Int)
        } else if msg == "set"@ {
            self.stamina.value_set(id, args).is_some()
        } else if msg == "tt"@ {
            self.tooltip_changes_hand(id, args) || exists|inventory: i32|
                self.tooltip_changes_in(inventory, id, args)
        } else {
            false
        }
    }

    /// The player after a known widget was given a new parent.
    pub open spec fn with_widget_moved(self, id: i32, parent: i32, pargs: Seq<ValueData>) -> PlayerView {
        if self.widgets.contains_key(id) {
            PlayerView {
                widgets: self.widgets.insert(
                    id,
                    WidgetData { parent, pargs_add: pargs, ..self.widgets[id] },
                ),
                ..self
            }
        } else {
            self
        }
    }

    /// The player after the widget `id` was destroyed: the first locator
    /// that names the widget is cleared; a known widget is forgotten, and
    /// with it the hand that it is, or the inventory that it is, or else
    /// the item that it is in the inventory of its parent.
    pub open spec fn with_widget_destroyed(self, id: i32) -> PlayerView {
        let cleared = if Some(id) == self.game_ui_id {
            PlayerView { game_ui_id: None, ..self }
        } else if Some(id) == self.map_view_id {
            PlayerView { map_view_id: None, ..self }
        } else if Some(id) == self.belt_id {
            PlayerView { belt_id: None, ..self }
        } else if Some(id) == self.equipment_widget {
            PlayerView { equipment_widget: None, ..self }
        } else if Some(id) == self.belt_inventory_id {
            PlayerView { belt_inventory_id: None, ..self }
        } else {
            self
        };
        if self.widgets.contains_key(id) {
            let widgets = self.widgets.remove(id);
            let parent = self.widgets[id].parent;
            if self.hand.is_some() && self.hand.unwrap().id == id {
                PlayerView { hand: None, widgets, ..cleared }
            } else if self.inventories.contains_key(id) {
                PlayerView { inventories: self.inventories.remove(id), widgets, ..cleared }
            } else if self.inventories.contains_key(parent) {
                PlayerView {
                    inventories: self.inventories.insert(
                        parent,
                        self.inventories[parent].remove(id),
                    ),
                    widgets,
                    ..cleared
                }
            } else {
                PlayerView { widgets, ..cleared }
            }
        } else {
            cleared
        }
    }

    /// The player after an event, seen at the time `now`, with the
    /// objects of the world.
    pub open spec fn after(self, objects: Objects, event: Event, now: u64) -> PlayerView {
        match event {
            Event::NewWidget { id, kind, parent, pargs, cargs } => self.with_widget(
                objects,
                id,
                kind@,
                parent,
                values_data(pargs@),
                values_data(cargs@),
                now,
            ),
            Event::UIMessage { id, msg, args } => self.with_ui_message(
                id,
                msg@,
                values_data(args@),
            ),
            Event::AddWidget { id, parent, pargs } => self.with_widget_moved(
                id,
                parent,
                values_data(pargs@),
            ),
            Event::Destroy { id } => self.with_widget_destroyed(id),
            Event::MapGridAdd { grid, neighbours } => PlayerView {
                map_grids: self.map_grids.push(PlayerGrid { id: grid.id, position: grid.position }),
                grid_id: match self.position {
                    Some(position) => if tile_pos_to_grid_pos_spec(position.tile) == grid.position {
                        Some(grid.id)
                    } else {
                        self.grid_id
                    },
                    None => self.grid_id,
                },
                ..self
            },
            Event::MapGridRemove { id } => PlayerView {
                map_grids: grids_without(self.map_grids, id, self.map_grids.len() as int),
                grid_id: if self.grid_id == Some(id) {
                    None
                } else {
                    self.grid_id
                },
                ..self
            },
            Event::GobAdd { id, position, angle, name } => self.seen_at(id, position, now),
            Event::GobMove { id, position, angle } => self.seen_at(id, position, now),
            Event::GobRemove { id } => if Some(id) == self.object_id {
                PlayerView {
                    position: None,
                    grid_id: None,
                    stuck_detector: StuckDetector { last_position: None, last_update: None },
                    is_stuck: false,
                    ..self
                }
            } else {
                self
            },
            Event::ResourceAdd { id, version, name } => PlayerView {
                resources: self.resources.insert(id, ResourceData { id, version, name: name@ }),
                stamina_resource: if name@ == self.stamina_name {
                    Some(id)
                } else {
                    self.stamina_resource
                },
                item_ids: Items::ids_after(
                    self.items_config,
                    self.item_ids,
                    ResourceData { id, version, name: name@ },
                ),
                ..self
            },
            _ => self,
        }
    }

    /// Whether an event counts as a change of the player.
    pub open spec fn changes(self, event: Event) -> bool {
        match event {
            Event::NewWidget { .. } => true,
            Event::UIMessage { id, msg, args } => self.ui_message_changes(
                id,
                msg@,
                values_data(args@),
            ),
            Event::AddWidget { id, .. } => self.widgets.contains_key(id),
            Event::Destroy { id } => self.widgets.contains_key(id),
            Event::MapGridAdd { .. } => true,
            Event::MapGridRemove { .. } => true,
            Event::GobAdd { id, .. } => self.object_id == Some(id),
            Event::GobMove { id, .. } => self.object_id == Some(id),
            Event::GobRemove { id } => self.object_id == Some(id),
            Event::ResourceAdd { .. } => true,
            _ => false,
        }
    }
}

/// The player of a session.
pub struct Player {
    pub map_view_id: Option<i32>,
    pub game_ui_id: Option<i32>,
    pub inventory_id: Option<i32>,
    pub belt_id: Option<i32>,
    pub belt_inventory_id: Option<i32>,
    pub name: Option<String>,
    pub object_id: Option<i64>,
    pub grid_id: Option<i64>,
    pub position: Option<WorldPos>,
    pub widgets: OrderedMap<Widget>,
    pub map_grids: Vec<PlayerGrid>,
    pub resources: OrderedMap<Resource>,
    pub stuck_detector: StuckDetector,
    pub is_stuck: bool,
    pub meters: Meters,
    pub items: Items,
    pub stamina: Stamina,
    pub equipment: Equipment,
    pub widget_inventories: OrderedMap<OrderedMap<Item>>,
    pub hand: Option<Item>,
}

/// The inventories by id, each with its items by id.
pub open spec fn inventory_maps(inventories: OrderedMap<OrderedMap<Item>>) -> Map<
    i32,
    Map<i32, ItemData>,
> {
    Map::new(
        |id: i32| inventories@.contains_key(id as i128),
        |id: i32| item_map(inventories@[id as i128]),
    )
}

/// The widgets by id.
pub open spec fn widget_map(widgets: OrderedMap<Widget>) -> Map<i32, WidgetData> {
    Map::new(|id: i32| widgets@.contains_key(id as i128), |id: i32| widgets@[id as i128]@)
}

/// The resources by id.
pub open spec fn resource_map(resources: OrderedMap<Resource>) -> Map<i32, ResourceData> {
    Map::new(|id: i32| resources@.contains_key(id as i128), |id: i32| resources@[id as i128]@)
}

impl View for Player {
    type V = PlayerView;

    open spec fn view(&self) -> PlayerView {
        PlayerView {
            map_view_id: self.map_view_id,
            game_ui_id: self.game_ui_id,
            inventory_id: self.inventory_id,
            belt_id: self.belt_id,
            belt_inventory_id: self.belt_inventory_id,
            name: match self.name {
                Some(name) => Some(name@),
                None => None,
            },
            object_id: self.object_id,
            grid_id: self.grid_id,
            position: self.position,
            widgets: widget_map(self.widgets),
            map_grids: self.map_grids@,
            resources: resource_map(self.resources),
            stuck_detector: self.stuck_detector,
            is_stuck: self.is_stuck,
            stamina_resource: self.meters.stamina,
            item_ids: self.items.ids(),
            stamina: self.stamina,
            equipment_widget: self.equipment.widget_id,
            slots: self.equipment.slots@,
            inventories: inventory_maps(self.widget_inventories),
            hand: match self.hand {
                Some(item) => Some(item@),
                None => None,
            },
            stamina_name: self.meters.config.stamina@,
            items_config: self.items.config,
            belt_slot: self.equipment.config.belt,
        }
    }
}

impl Player {
    /// Whether the maps of the player are in order and every key is an id.
    pub open spec fn wf(&self) -> bool {
        &&& self.widgets.wf()
        &&& self.resources.wf()
        &&& self.equipment.slots.wf()
        &&& self.widget_inventories.wf()
        &&& forall|k: i128| #[trigger]
            self.widget_inventories@.contains_key(k) ==> self.widget_inventories@[k].wf()
        &&& forall|k: i128| #[trigger]
            self.widget_inventories@.contains_key(k) ==> i32::MIN <= k <= i32::MAX
        &&& forall|k: i128, i: i128| #[trigger]
            self.widget_inventories@.contains_key(k)
                && #[trigger] self.widget_inventories@[k]@.contains_key(i)
                ==> i32::MIN <= i <= i32::MAX
    }

    /// A player of whom nothing is known yet.
    pub fn new(config: PlayerConfig) -> (result: Self)
        ensures
            result.wf(),
            result@ == (PlayerView {
                map_view_id: None,
                game_ui_id: None,
                inventory_id: None,
                belt_id: None,
                belt_inventory_id: None,
                name: None,
                object_id: None,
                grid_id: None,
                position: None,
                widgets: Map::empty(),
                map_grids: Seq::empty(),
                resources: Map::empty(),
                stuck_detector: StuckDetector { last_position: None, last_update: None },
                is_stuck: false,
                stamina_resource: None,
                item_ids: ItemIds { content: None, content_name: None, quality: None },
                stamina: Stamina { widget_id: None, value: None },
                equipment_widget: None,
                slots: Map::empty(),
                inventories: Map::empty(),
                hand: None,
                stamina_name: config.meters.stamina@,
                items_config: config.items,
                belt_slot: config.equipment.belt,
            }),
    {
        let result = Player {
            map_view_id: None,
            game_ui_id: None,
            inventory_id: None,
            belt_id: None,
            belt_inventory_id: None,
            name: None,
            object_id: None,
            grid_id: None,
            position: None,
            widgets: OrderedMap::new(),
            map_grids: Vec::new(),
            resources: OrderedMap::new(),
            stuck_detector: StuckDetector::new(),
            is_stuck: false,
            meters: Meters::new(config.meters),
            items: Items::new(config.items),
            stamina: Stamina { widget_id: None, value: None },
            equipment: Equipment::new(config.equipment),
            widget_inventories: OrderedMap::new(),
            hand: None,
        };
        proof {
            assert(result@.widgets =~= Map::empty());
            assert(result@.resources =~= Map::empty());
            assert(result@.inventories =~= Map::empty());
            assert(result@.map_grids =~= Seq::empty());
        }
        result
    }

    pub fn map_view_id(&self) -> (result: Option<i32>)
        ensures
            result == self@.map_view_id,
    {
        self.map_view_id
    }

    pub fn game_ui_id(&self) -> (result: Option<i32>)
        ensures
            result == self@.game_ui_id,
    {
        self.game_ui_id
    }

    pub fn inventory_id(&self) -> (result: Option<i32>)
        ensures
            result == self@.inventory_id,
    {
        self.inventory_id
    }

    pub fn belt_inventory_id(&self) -> (result: Option<i32>)
        ensures
            result == self@.belt_inventory_id,
    {
        self.belt_inventory_id
    }

    pub fn name(&self) -> (result: Option<&String>)
        ensures
            result.is_some() == self@.name.is_some(),
            result.is_some() ==> result.unwrap()@ == self@.name.unwrap(),
    {
        self.name.as_ref()
    }

    pub fn object_id(&self) -> (result: Option<i64>)
        ensures
            result == self@.object_id,
    {
        self.object_id
    }

    pub fn grid_id(&self) -> (result: Option<i64>)
        ensures
            result == self@.grid_id,
    {
        self.grid_id
    }

    pub fn position(&self) -> (result: Option<WorldPos>)
        ensures
            result == self@.position,
    {
        self.position
    }

    pub fn widgets(&self) -> (result: &OrderedMap<Widget>)
        ensures
            *result == self.widgets,
    {
        &self.widgets
    }

    pub fn resources(&self) -> (result: &OrderedMap<Resource>)
        ensures
            *result == self.resources,
    {
        &self.resources
    }

    pub fn is_stuck(&self) -> (result: bool)
        ensures
            result == self@.is_stuck,
    {
        self.is_stuck
    }

    pub fn stamina(&self) -> (result: Option<i32>)
        ensures
            result == self@.stamina.value,
    {
        self.stamina.value
    }

    /// The equipment, once its widget is known.
    pub fn equipment(&self) -> (result: Option<PlayerEquipment<'_>>)
        ensures
            result.is_some() == self@.equipment_widget.is_some(),
            result.is_some() ==> *result.unwrap().slots == self.equipment.slots
                && *result.unwrap().config == self.equipment.config,
    {
        match self.equipment.widget_id {
            Some(_) => Some(
                PlayerEquipment { config: &self.equipment.config, slots: &self.equipment.slots },
            ),
            None => None,
        }
    }

    pub fn widget_inventories(&self) -> (result: &OrderedMap<OrderedMap<Item>>)
        ensures
            *result == self.widget_inventories,
    {
        &self.widget_inventories
    }

    pub fn hand(&self) -> (result: &Option<Item>)
        ensures
            *result == self.hand,
    {
        &self.hand
    }
}

fn find_grid_at(grids: &Vec<PlayerGrid>, position: Vec2i) -> (result: Option<i64>)
    ensures
        result == grid_standing_at(grids@, position, 0),
{
    let mut i: usize = 0;
    while i < grids.len()
        invariant
            i <= grids.len(),
            grid_standing_at(grids@, position, i as int) == grid_standing_at(grids@, position, 0),
        decreases grids.len() - i,
    {
        if grids[i].position == position {
            return Some(grids[i].id);
        }
        i += 1;
    }
    None
}

fn retain_other_grids(grids: &Vec<PlayerGrid>, id: i64) -> (result: Vec<PlayerGrid>)
    ensures
        result@ == grids_without(grids@, id, grids.len() as int),
{
    let mut result: Vec<PlayerGrid> = Vec::new();
    let mut i: usize = 0;
    while i < grids.len()
        invariant
            i <= grids.len(),
            result@ == grids_without(grids@, id, i as int),
        decreases grids.len() - i,
    {
        if grids[i].id != id {
            result.push(grids[i]);
        }
        i += 1;
    }
    result
}

impl Player {
    fn update_player(&mut self, object_id: i64, position: WorldPos, now: u64) -> (result: bool)
        requires
            old(self).wf(),
        ensures
            final(self).wf(),
            final(self)@ == old(self)@.seen_at(object_id, position, now),
            result == (old(self)@.object_id == Some(object_id)),
    {
        if self.object_id == Some(object_id) {
            self.position = Some(position);
            let grid_position = tile_pos_to_grid_pos(position.tile);
            if let Some(id) = find_grid_at(&self.map_grids, grid_position) {
                self.grid_id = Some(id);
            }
            self.is_stuck = self.stuck_detector.check(position.point, now);
            self.stuck_detector.update(position.point, now);
            true
        } else {
            false
        }
    }

    fn on_item_widget(&mut self, id: i32, parent: i32, pargs: &Vec<Value>, cargs: &Vec<Value>)
        requires
            old(self).wf(),
        ensures
            final(self).wf(),
            final(self).widgets == old(self).widgets,
            final(self)@ == (if Some(parent) == old(self)@.equipment_widget {
                PlayerView {
                    slots: Equipment::slots_after(old(self)@.slots, id, values_data(pargs@)),
                    ..old(self)@
                }
            } else if Some(parent) == old(self)@.game_ui_id {
                PlayerView { hand: item_made(id, values_data(cargs@), None), ..old(self)@ }
            } else if old(self)@.inventories.contains_key(parent) {
                match item_made(id, values_data(cargs@), first_coord(values_data(pargs@), 0)) {
                    Some(item) => PlayerView {
                        inventories: old(self)@.inventories.insert(
                            parent,
                            old(self)@.inventories[parent].insert(id, item),
                        ),
                        ..old(self)@
                    },
                    None => old(self)@,
                }
            } else {
                old(self)@
            }),
    {
        if Some(parent) == self.equipment.widget_id {
            self.equipment.add_item(id, pargs);
        } else if Some(parent) == self.game_ui_id {
            self.hand = make_item(id, cargs, None);
        } else {
            let (at, found) = self.widget_inventories.find(parent as i128);
            if found {
                let position = find_coord(pargs);
                if let Some(item) = make_item(id, cargs, position) {
                    let ghost before = self.widget_inventories;
                    let ghost data = item@;
                    proof {
                        before.lemma_entry(at as int);
                        assert(before@.contains_key(before.keys[at as int]));
                    }
                    self.widget_inventories.values[at].insert(id as i128, item);
                    proof {
                        before.lemma_value_replaced(&self.widget_inventories, at as int);
                        let inner = self.widget_inventories.values[at as int];
                        assert(item_map(inner) =~= item_map(before.values[at as int]).insert(
                            id,
                            data,
                        ));
                        assert(inventory_maps(self.widget_inventories) =~= inventory_maps(
                            before,
                        ).insert(parent, item_map(before.values[at as int]).insert(id, data)));
                    }
                }
            }
        }
    }

    fn on_new_widget(
        &mut self,
        objects: &Objects,
        id: i32,
        kind: &String,
        parent: i32,
        pargs: &Vec<Value>,
        cargs: &Vec<Value>,
        now: u64,
    )
        requires
            old(self).wf(),
            objects.wf(),
        ensures
            final(self).wf(),
            final(self)@ == old(self)@.with_widget(
                *objects,
                id,
                kind@,
                parent,
                values_data(pargs@),
                values_data(cargs@),
                now,
            ),
    {
        let ghost start = self@;
        let ghost widget = WidgetData {
            id,
            parent,
            kind: kind@,
            pargs: values_data(pargs@),
            cargs: values_data(cargs@),
            pargs_add: Seq::empty(),
        };
        if str_equal(kind.as_str(), "gameui") {
            self.game_ui_id = Some(id);
            if cargs.len() >= 2 {
                assert(values_data(cargs@)[0] == cargs@[0].data());
                assert(values_data(cargs@)[1] == cargs@[1].data());
                if let Value::Str { value } = &cargs[0] {
                    self.name = Some(value.clone());
                }
                if let Value::Int { value } = &cargs[1] {
                    self.object_id = Some(*value as i64);
                    if let Some(object) = objects.get_by_id(*value as i64) {
                        self.update_player(object.id, object.position, now);
                    }
                }
            }
        } else if str_equal(kind.as_str(), "mapview") {
            self.map_view_id = Some(id);
        } else if str_equal(kind.as_str(), "im") {
            if let Some(resource) = self.meters.stamina {
                self.stamina.update_widget_id(resource, id, cargs);
            }
        } else if str_equal(kind.as_str(), "epry") {
            self.equipment.widget_id = Some(id);
        } else if str_equal(kind.as_str(), "item") {
            self.on_item_widget(id, parent, pargs, cargs);
        } else if str_equal(kind.as_str(), "wnd") {
            if cargs.len() >= 2 {
                assert(values_data(cargs@)[1] == cargs@[1].data());
                if cargs[1].is_str("Belt") {
                    self.belt_id = Some(id);
                }
            }
        } else if str_equal(kind.as_str(), "inv") {
            let mut first_is_inv = false;
            if pargs.len() >= 1 {
                assert(values_data(pargs@)[0] == pargs@[0].data());
                first_is_inv = pargs[0].is_str("inv");
            }
            if Some(parent) == self.game_ui_id && first_is_inv {
                self.inventory_id = Some(id);
            } else if Some(parent) == self.belt_id {
                self.belt_inventory_id = Some(id);
            }
            let ghost before = self.widget_inventories;
            self.widget_inventories.insert(id as i128, OrderedMap::new());
            proof {
                assert(item_map(self.widget_inventories@[id as i128]) =~= Map::empty());
                assert(inventory_maps(self.widget_inventories) =~= inventory_maps(before).insert(
                    id,
                    Map::empty(),
                ));
            }
        }
        let ghost before_widgets = self.widgets;
        self.widgets.insert(
            id as i128,
            Widget {
                id,
                parent,
                kind: kind.clone(),
                pargs: duplicate_values(pargs),
                cargs: duplicate_values(cargs),
                pargs_add: Vec::new(),
            },
        );
        proof {
            assert(values_data(Seq::<Value>::empty()) =~= Seq::<ValueData>::empty());
            assert(widget_map(self.widgets) =~= widget_map(before_widgets).insert(id, widget));
        }
    }
}

impl Player {
    fn on_tooltip(&mut self, id: i32, args: &Vec<Value>) -> (result: bool)
        requires
            old(self).wf(),
        ensures
            final(self).wf(),
            final(self)@ == old(self)@.with_tooltip(id, values_data(args@)),
            result == (old(self)@.tooltip_changes_hand(id, values_data(args@)) || exists|
                inventory: i32,
            |
                old(self)@.tooltip_changes_in(inventory, id, values_data(args@))),
    {
        let told = decode_content(args, &self.items);
        let ghost start = self@;
        let ghost data = values_data(args@);
        let ghost told_data = content_told(data, start.item_ids);
        let hand_changes = match &self.hand {
            Some(item) => item.id == id && (told.is_some() || item.content.is_some()),
            None => false,
        };
        if hand_changes {
            match &mut self.hand {
                Some(item) => {
                    item.content = told;
                },
                None => {},
            }
            return true;
        }
        let mut k: usize = 0;
        while k < self.widget_inventories.keys.len()
            invariant
                self.wf(),
                self@ == start,
                start == old(self)@,
                data == values_data(args@),
                told_data == content_told(data, start.item_ids),
                told.is_some() == told_data.is_some(),
                told.is_some() ==> (ContentData {
                    name: told.unwrap().name@,
                    quality: told.unwrap().quality,
                }) == told_data.unwrap(),
                !start.tooltip_changes_hand(id, data),
                k <= self.widget_inventories.keys.len(),
                forall|j: int|
                    0 <= j < k ==> !start.tooltip_changes_in(
                        #[trigger] self.widget_inventories.keys[j] as i32,
                        id,
                        data,
                    ),
            decreases self.widget_inventories.keys.len() - k,
        {
            proof {
                self.widget_inventories.lemma_entry(k as int);
                assert(self.widget_inventories@.contains_key(self.widget_inventories.keys[k as int]));
            }
            let (at, found) = self.widget_inventories.values[k].find(id as i128);
            if found {
                proof {
                    self.widget_inventories.values[k as int].lemma_entry(at as int);
                }
                if told.is_some() || self.widget_inventories.values[k].values[at].content.is_some() {
                    let ghost before = self.widget_inventories;
                    let ghost inner_before = before.values[k as int];
                    let ghost key = before.keys[k as int] as i32;
                    let ghost item_before = inner_before.values[at as int]@;
                    self.widget_inventories.values[k].values[at].content = told;
                    proof {
                        let inner = self.widget_inventories.values[k as int];
                        assert(inner.values@ =~= inner_before.values@.update(
                            at as int,
                            inner.values[at as int],
                        ));
                        inner_before.lemma_value_replaced(&inner, at as int);
                        assert(self.widget_inventories.values@ =~= before.values@.update(
                            k as int,
                            inner,
                        ));
                        before.lemma_value_replaced(&self.widget_inventories, k as int);
                        let item_after = ItemData { content: told_data, ..item_before };
                        assert(inner.values[at as int]@ == item_after);
                        assert(item_map(inner) =~= item_map(inner_before).insert(id, item_after));
                        assert(inventory_maps(self.widget_inventories) =~= inventory_maps(
                            before,
                        ).insert(key, item_map(inner_before).insert(id, item_after)));
                        assert(start.tooltip_changes_in(key, id, data));
                        assert forall|other: i32| other < key implies !start.tooltip_changes_in(
                            other,
                            id,
                            data,
                        ) by {
                            if start.tooltip_changes_in(other, id, data) {
                                before.lemma_key_index(other as i128);
                                let j = before.keys@.index_of(other as i128);
                                if j >= k {
                                    if j > k {
                                        assert(before.keys[k as int] < before.keys[j]);
                                    }
                                }
                            }
                        }
                        assert(start.first_changed_by_tooltip(key, id, data));
                        let chosen = choose|inventory: i32|
                            start.first_changed_by_tooltip(inventory, id, data);
                        assert(chosen == key) by {
                            if chosen < key {
                                assert(!start.tooltip_changes_in(chosen, id, data));
                            } else if key < chosen {
                                assert(!start.tooltip_changes_in(key, id, data));
                            }
                        }
                        assert forall|a: i128, i: i128| #[trigger]
                            self.widget_inventories@.contains_key(a)
                                && #[trigger] self.widget_inventories@[a]@.contains_key(i)
                                implies i32::MIN <= i <= i32::MAX by {
                            if a == before.keys[k as int] {
                                assert(before@[a]@.contains_key(i));
                            } else {
                                assert(before@[a]@.contains_key(i));
                            }
                        }
                    }
                    return true;
                }
            }
            proof {
                let key = self.widget_inventories.keys[k as int];
                assert(i32::MIN <= key <= i32::MAX);
            }
            k += 1;
        }
        proof {
            assert forall|inventory: i32| !start.tooltip_changes_in(inventory, id, data) by {
                if start.tooltip_changes_in(inventory, id, data) {
                    self.widget_inventories.lemma_key_index(inventory as i128);
                    let j = self.widget_inventories.keys@.index_of(inventory as i128);
                    assert(!start.tooltip_changes_in(
                        self.widget_inventories.keys[j] as i32,
                        id,
                        data,
                    ));
                }
            }
        }
        false
    }

    fn on_ui_message(&mut self, id: i32, msg: &String, args: &Vec<Value>) -> (result: bool)
        requires
            old(self).wf(),
        ensures
            final(self).wf(),
            final(self)@ == old(self)@.with_ui_message(id, msg@, values_data(args@)),
            result == old(self)@.ui_message_changes(id, msg@, values_data(args@)),
    {
        if str_equal(msg.as_str(), "plob") {
            if Some(id) == self.map_view_id && args.len() > 0 {
                assert(values_data(args@)[0] == args@[0].data());
                match &args[0] {
                    Value::Nil => {
                        self.object_id = None;
                        true
                    },
                    Value::Int { value } => {
                        self.object_id = Some(*value as i64);
                        true
                    },
                    _ => false,
                }
            } else {
                false
            }
        } else if str_equal(msg.as_str(), "set") {
            self.stamina.update_value(id, args)
        } else if str_equal(msg.as_str(), "tt") {
            self.on_tooltip(id, args)
        } else {
            false
        }
    }

    fn on_add_widget(&mut self, id: i32, parent: i32, pargs: &Vec<Value>) -> (result: bool)
        requires
            old(self).wf(),
        ensures
            final(self).wf(),
            final(self)@ == old(self)@.with_widget_moved(id, parent, values_data(pargs@)),
            result == old(self)@.widgets.contains_key(id),
    {
        let (at, found) = self.widgets.find(id as i128);
        if found {
            let ghost before = self.widgets;
            proof {
                before.lemma_entry(at as int);
            }
            self.widgets.values[at].parent = parent;
            self.widgets.values[at].pargs_add = duplicate_values(pargs);
            proof {
                assert(self.widgets.values@ =~= before.values@.update(
                    at as int,
                    self.widgets.values[at as int],
                ));
                before.lemma_value_replaced(&self.widgets, at as int);
                assert(widget_map(self.widgets) =~= widget_map(before).insert(
                    id,
                    WidgetData {
                        parent,
                        pargs_add: values_data(pargs@),
                        ..widget_map(before)[id]
                    },
                ));
            }
            true
        } else {
            false
        }
    }

    fn on_destroy(&mut self, id: i32) -> (result: bool)
        requires
            old(self).wf(),
        ensures
            final(self).wf(),
            final(self)@ == old(self)@.with_widget_destroyed(id),
            result == old(self)@.widgets.contains_key(id),
    {
        if Some(id) == self.game_ui_id {
            self.game_ui_id = None;
        } else if Some(id) == self.map_view_id {
            self.map_view_id = None;
        } else if Some(id) == self.belt_id {
            self.belt_id = None;
        } else if Some(id) == self.equipment.widget_id {
            self.equipment.widget_id = None;
        } else if Some(id) == self.belt_inventory_id {
            self.belt_inventory_id = None;
        }
        let ghost before_widgets = self.widgets;
        match self.widgets.remove(id as i128) {
            Some(widget) => {
                proof {
                    assert(widget_map(self.widgets) =~= widget_map(before_widgets).remove(id));
                }
                let in_hand = match &self.hand {
                    Some(item) => item.id == id,
                    None => false,
                };
                if in_hand {
                    self.hand = None;
                } else {
                    let ghost before = self.widget_inventories;
                    if self.widget_inventories.contains_key(id as i128) {
                        self.widget_inventories.remove(id as i128);
                        proof {
                            assert(inventory_maps(self.widget_inventories) =~= inventory_maps(
                                before,
                            ).remove(id));
                        }
                    } else {
                        let (at, found) = self.widget_inventories.find(widget.parent as i128);
                        if found {
                            proof {
                                before.lemma_entry(at as int);
                                assert(before@.contains_key(before.keys[at as int]));
                            }
                            self.widget_inventories.values[at].remove(id as i128);
                            proof {
                                before.lemma_value_replaced(&self.widget_inventories, at as int);
                                let inner = self.widget_inventories.values[at as int];
                                assert(item_map(inner) =~= item_map(before.values[at as int]).remove(
                                    id,
                                ));
                                assert(inventory_maps(self.widget_inventories) =~= inventory_maps(
                                    before,
                                ).insert(
                                    widget.parent,
                                    item_map(before.values[at as int]).remove(id),
                                ));
                            }
                        }
                    }
                }
                true
            },
            None => {
                proof {
                    assert(widget_map(self.widgets) =~= widget_map(before_widgets));
                }
                false
            },
        }
    }

    /// Takes an event in, seen at the time `now` (in nanoseconds), with the
    /// objects of the world as they stand before the event; says whether
    /// the event counts as a change.
    pub fn update(&mut self, objects: &Objects, update: &Update, now: u64) -> (result: bool)
        requires
            old(self).wf(),
            objects.wf(),
        ensures
            final(self).wf(),
            final(self)@ == old(self)@.after(*objects, update.event, now),
            result == old(self)@.changes(update.event),
    {
        match &update.event {
            Event::NewWidget { id, kind, parent, pargs, cargs } => {
                self.on_new_widget(objects, *id, kind, *parent, pargs, cargs, now);
                true
            },
            Event::UIMessage { id, msg, args } => self.on_ui_message(*id, msg, args),
            Event::AddWidget { id, parent, pargs } => self.on_add_widget(*id, *parent, pargs),
            Event::Destroy { id } => self.on_destroy(*id),
            Event::MapGridAdd { grid, neighbours } => {
                self.map_grids.push(PlayerGrid { id: grid.id, position: grid.position });
                if let Some(position) = self.position {
                    if tile_pos_to_grid_pos(position.tile) == grid.position {
                        self.grid_id = Some(grid.id);
                    }
                }
                true
            },
            Event::MapGridRemove { id } => {
                if self.grid_id == Some(*id) {
                    self.grid_id = None;
                }
                self.map_grids = retain_other_grids(&self.map_grids, *id);
                true
            },
            Event::GobAdd { id, position, angle, name } => self.update_player(*id, *position, now),
            Event::GobRemove { id } => {
                if Some(*id) == self.object_id {
                    self.position = None;
                    self.grid_id = None;
                    self.stuck_detector = StuckDetector::new();
                    self.is_stuck = false;
                    true
                } else {
                    false
                }
            },
            Event::GobMove { id, position, angle } => self.update_player(*id, *position, now),
            Event::ResourceAdd { id, version, name } => {
                let resource = Resource { id: *id, version: *version, name: name.clone() };
                self.meters.update(&resource);
                self.items.update(&resource);
                let ghost before = self.resources;
                let ghost data = resource@;
                self.resources.insert(*id as i128, resource);
                proof {
                    assert(resource_map(self.resources) =~= resource_map(before).insert(*id, data));
                }
                true
            },
            _ => false,
        }
    }
}

/// The player of a snapshot.
#[derive(Debug, Clone, PartialEq)]
pub struct PlayerData {
    pub map_view_id: Option<i32>,
    pub game_ui_id: Option<i32>,
    pub belt_id: Option<i32>,
    pub name: Option<String>,
    pub object_id: Option<i64>,
    pub grid_id: Option<i64>,
    pub position: Option<WorldPos>,
    pub widgets: Vec<Widget>,
    pub map_grids: Vec<PlayerGrid>,
    pub resources: Vec<Resource>,
    pub stamina: Option<i32>,
    pub items: Vec<Item>,
}

/// The views of the widgets of a list, in order.
pub open spec fn widget_views(widgets: Seq<Widget>) -> Seq<WidgetData> {
    Seq::new(widgets.len(), |i: int| widgets[i]@)
}

/// The views of the resources of a list, in order.
pub open spec fn resource_views(resources: Seq<Resource>) -> Seq<ResourceData> {
    Seq::new(resources.len(), |i: int| resources[i]@)
}

/// The views of the items of a list, in order.
pub open spec fn item_views(items: Seq<Item>) -> Seq<ItemData> {
    Seq::new(items.len(), |i: int| items[i]@)
}

/// The views of the items of the first `n` inventories, inventory by
/// inventory.
pub open spec fn all_items(inventories: Seq<OrderedMap<Item>>, n: int) -> Seq<ItemData>
    decreases n,
{
    if n <= 0 {
        Seq::empty()
    } else {
        all_items(inventories, n - 1) + item_views(inventories[n - 1].values@)
    }
}

/// What a widget is looked for by.
pub enum Probe {
    /// The inventory of the belt: an inventory under the belt window.
    BeltInventory(Option<i32>),
    /// The inventory of the player: an inventory under the game interface
    /// whose first argument is the string `inv`.
    MainInventory(Option<i32>),
    /// The meter of the stamina: a meter whose first argument is the
    /// stamina resource.
    StaminaMeter(i32),
    /// The equipment.
    Equipment,
    /// The hand: an item under the game interface.
    Hand(i32),
}

/// Whether the widget is what the probe looks for.
pub open spec fn probed(widget: Widget, probe: Probe) -> bool {
    match probe {
        Probe::BeltInventory(belt_id) => widget.kind@ == "inv"@ && Some(widget.parent) == belt_id,
        Probe::MainInventory(game_ui_id) => widget.kind@ == "inv"@ && Some(widget.parent)
            == game_ui_id && widget.pargs@.len() >= 1 && widget.pargs@[0].data() == ValueData::Str(
            "inv"@,
        ),
        Probe::StaminaMeter(resource) => widget.kind@ == "im"@ && widget.cargs@.len() >= 1
            && widget.cargs@[0].data() == ValueData::Int(resource),
        Probe::Equipment => widget.kind@ == "epry"@,
        Probe::Hand(game_ui_id) => widget.parent == game_ui_id && widget.kind@ == "item"@,
    }
}

/// The id of the first of the first `n` widgets that is what the probe
/// looks for.
pub open spec fn first_probed(widgets: Seq<Widget>, probe: Probe, n: int) -> Option<i32>
    decreases n,
{
    if n <= 0 {
        None
    } else {
        match first_probed(widgets, probe, n - 1) {
            Some(id) => Some(id),
            None => if probed(widgets[n - 1], probe) {
                Some(widgets[n - 1].id)
            } else {
                None
            },
        }
    }
}

/// A widget found among the first `n` is the widget found among the first
/// `m`, for every `m` from `n` on.
pub proof fn lemma_first_probed_found(widgets: Seq<Widget>, probe: Probe, n: int, m: int)
    requires
        n <= m,
        first_probed(widgets, probe, n).is_some(),
    ensures
        first_probed(widgets, probe, m) == first_probed(widgets, probe, n),
    decreases m - n,
{
    if n < m {
        lemma_first_probed_found(widgets, probe, n, m - 1);
    }
}

fn is_probed(widget: &Widget, probe: &Probe) -> (result: bool)
    ensures
        result == probed(*widget, *probe),
{
    match probe {
        Probe::BeltInventory(belt_id) => str_equal(widget.kind.as_str(), "inv") && Some(
            widget.parent,
        ) == *belt_id,
        Probe::MainInventory(game_ui_id) => {
            if str_equal(widget.kind.as_str(), "inv") && Some(widget.parent) == *game_ui_id
                && widget.pargs.len() >= 1 {
                widget.pargs[0].is_str("inv")
            } else {
                false
            }
        },
        Probe::StaminaMeter(resource) => {
            if str_equal(widget.kind.as_str(), "im") && widget.cargs.len() >= 1 {
                widget.cargs[0].is_int(*resource)
            } else {
                false
            }
        },
        Probe::Equipment => str_equal(widget.kind.as_str(), "epry"),
        Probe::Hand(game_ui_id) => widget.parent == *game_ui_id && str_equal(
            widget.kind.as_str(),
            "item",
        ),
    }
}

fn find_probed(widgets: &Vec<Widget>, probe: &Probe) -> (result: Option<i32>)
    ensures
        result == first_probed(widgets@, *probe, widgets.len() as int),
{
    let mut i: usize = 0;
    while i < widgets.len()
        invariant
            i <= widgets.len(),
            first_probed(widgets@, *probe, i as int).is_none(),
        decreases widgets.len() - i,
    {
        if is_probed(&widgets[i], probe) {
            proof {
                lemma_first_probed_found(widgets@, *probe, i + 1, widgets.len() as int);
            }
            return Some(widgets[i].id);
        }
        i += 1;
    }
    None
}

/// The slots after the items among the first `n` widgets that lie under
/// the equipment were put on, one after the other.
pub open spec fn slots_from(widgets: Seq<Widget>, equipment: Option<i32>, n: int) -> Map<i128, i32>
    decreases n,
{
    if n <= 0 {
        Map::empty()
    } else if Some(widgets[n - 1].parent) == equipment {
        Equipment::slots_after(
            slots_from(widgets, equipment, n - 1),
            widgets[n - 1].id,
            values_data(widgets[n - 1].pargs@),
        )
    } else {
        slots_from(widgets, equipment, n - 1)
    }
}

/// The items of the inventory `inventory`: for each widget under it whose
/// id is the id of a known item, that item.
pub open spec fn inventory_of(
    widgets: Map<i128, Widget>,
    items: Map<i128, Item>,
    inventory: i32,
) -> Map<i32, ItemData> {
    Map::new(
        |id: i32|
            widgets.contains_key(id as i128) && widgets[id as i128].parent == inventory
                && items.contains_key(id as i128),
        |id: i32| items[id as i128]@,
    )
}

/// The inventories: one for each inventory widget.
pub open spec fn inventories_of(widgets: Map<i128, Widget>, items: Map<i128, Item>) -> Map<
    i32,
    Map<i32, ItemData>,
> {
    Map::new(
        |id: i32| widgets.contains_key(id as i128) && widgets[id as i128].kind@ == "inv"@,
        |id: i32| inventory_of(widgets, items, id),
    )
}

impl Player {
    /// Whether `data` is the snapshot of the player: the widgets and
    /// resources in the order of their ids, and the items of every
    /// inventory, then of the hand.
    pub open spec fn snapshot(&self, data: PlayerData) -> bool {
        &&& data.map_view_id == self@.map_view_id
        &&& data.game_ui_id == self@.game_ui_id
        &&& data.belt_id == self@.belt_id
        &&& data.object_id == self@.object_id
        &&& data.grid_id == self@.grid_id
        &&& data.position == self@.position
        &&& data.stamina == self@.stamina.value
        &&& data.map_grids@ == self@.map_grids
        &&& data.name.is_some() == self@.name.is_some()
        &&& data.name.is_some() ==> data.name.unwrap()@ == self@.name.unwrap()
        &&& widget_views(data.widgets@) == widget_views(self.widgets.values@)
        &&& resource_views(data.resources@) == resource_views(self.resources.values@)
        &&& item_views(data.items@) == all_items(
            self.widget_inventories.values@,
            self.widget_inventories.values.len() as int,
        ) + match self@.hand {
                Some(item) => seq![item],
                None => Seq::empty(),
            }
    }

    /// The player as a snapshot: the widgets and resources in the order of
    /// their ids, and the items of every inventory, then of the hand.
    pub fn as_player_data(&self) -> (result: PlayerData)
        requires
            self.wf(),
        ensures
            self.snapshot(result),
    {
        let mut items: Vec<Item> = Vec::new();
        let mut i: usize = 0;
        proof {
            assert(item_views(items@) =~= all_items(self.widget_inventories.values@, 0));
        }
        while i < self.widget_inventories.values.len()
            invariant
                i <= self.widget_inventories.values.len(),
                item_views(items@) == all_items(self.widget_inventories.values@, i as int),
            decreases self.widget_inventories.values.len() - i,
        {
            let inventory = &self.widget_inventories.values[i];
            let ghost start = item_views(items@);
            let mut j: usize = 0;
            while j < inventory.values.len()
                invariant
                    j <= inventory.values.len(),
                    items@.len() == start.len() + j,
                    forall|k: int| 0 <= k < start.len() ==> (#[trigger] items@[k])@ == start[k],
                    forall|k: int|
                        0 <= k < j ==> (#[trigger] items@[start.len() + k])@ == inventory.values[k]@,
                decreases inventory.values.len() - j,
            {
                let ghost before = items@;
                items.push(inventory.values[j].duplicate());
                proof {
                    assert forall|k: int| 0 <= k < start.len() implies (#[trigger] items@[k])@
                        == start[k] by {
                        assert(items@[k] == before[k]);
                    }
                    assert forall|k: int| 0 <= k < j + 1 implies (#[trigger] items@[start.len()
                        + k])@ == inventory.values[k]@ by {
                        if k < j {
                            assert(items@[start.len() + k] == before[start.len() + k]);
                        }
                    }
                }
                j += 1;
            }
            proof {
                assert forall|k: int| 0 <= k < items@.len() implies #[trigger] item_views(
                    items@,
                )[k] == (start + item_views(inventory.values@))[k] by {
                    if k >= start.len() {
                        assert(items@[start.len() + (k - start.len())]@ == inventory.values[k
                            - start.len()]@);
                    }
                }
                assert(item_views(items@) =~= start + item_views(inventory.values@));
            }
            i += 1;
        }
        let ghost in_inventories = item_views(items@);
        if let Some(item) = &self.hand {
            items.push(item.duplicate());
            proof {
                assert(item_views(items@) =~= in_inventories + seq![item@]);
            }
        } else {
            proof {
                assert(item_views(items@) =~= in_inventories + Seq::<ItemData>::empty());
            }
        }
        let mut widgets: Vec<Widget> = Vec::new();
        let mut w: usize = 0;
        while w < self.widgets.values.len()
            invariant
                w <= self.widgets.values.len(),
                widgets.len() == w,
                forall|k: int| 0 <= k < w ==> (#[trigger] widgets[k])@ == self.widgets.values[k]@,
            decreases self.widgets.values.len() - w,
        {
            widgets.push(self.widgets.values[w].duplicate());
            w += 1;
        }
        let mut resources: Vec<Resource> = Vec::new();
        let mut r: usize = 0;
        while r < self.resources.values.len()
            invariant
                r <= self.resources.values.len(),
                resources.len() == r,
                forall|k: int|
                    0 <= k < r ==> (#[trigger] resources[k])@ == self.resources.values[k]@,
            decreases self.resources.values.len() - r,
        {
            let resource = &self.resources.values[r];
            resources.push(
                Resource { id: resource.id, version: resource.version, name: resource.name.clone() },
            );
            r += 1;
        }
        proof {
            assert(widget_views(widgets@) =~= widget_views(self.widgets.values@));
            assert(resource_views(resources@) =~= resource_views(self.resources.values@));
        }
        PlayerData {
            map_view_id: self.map_view_id,
            game_ui_id: self.game_ui_id,
            belt_id: self.belt_id,
            name: match &self.name {
                Some(name) => Some(name.clone()),
                None => None,
            },
            object_id: self.object_id,
            grid_id: self.grid_id,
            position: self.position,
            widgets,
            map_grids: self.map_grids.clone(),
            resources,
            stamina: self.stamina.value,
            items,
        }
    }
}

/// The widgets by id after the first `n` widgets of a list were stored one
/// after the other.
pub open spec fn widgets_stored(widgets: Seq<Widget>, n: int) -> Map<i32, WidgetData>
    decreases n,
{
    if n <= 0 {
        Map::empty()
    } else {
        widgets_stored(widgets, n - 1).insert(widgets[n - 1].id, widgets[n - 1]@)
    }
}

/// The resources by id after the first `n` resources of a list were stored
/// one after the other.
pub open spec fn resources_stored(resources: Seq<Resource>, n: int) -> Map<i32, ResourceData>
    decreases n,
{
    if n <= 0 {
        Map::empty()
    } else {
        resources_stored(resources, n - 1).insert(resources[n - 1].id, resources[n - 1]@)
    }
}

/// The items by id after the first `n` items of a list were stored one
/// after the other.
pub open spec fn items_stored(items: Seq<Item>, n: int) -> Map<i32, ItemData>
    decreases n,
{
    if n <= 0 {
        Map::empty()
    } else {
        items_stored(items, n - 1).insert(items[n - 1].id, items[n - 1]@)
    }
}

/// Whether every widget is filed under its id.
pub open spec fn widgets_keyed(widgets: OrderedMap<Widget>) -> bool {
    forall|k: i128| #[trigger] widgets@.contains_key(k) ==> widgets@[k].id as i128 == k
}

/// Whether every item is filed under its id.
pub open spec fn items_keyed(items: OrderedMap<Item>) -> bool {
    forall|k: i128| #[trigger] items@.contains_key(k) ==> items@[k].id as i128 == k
}

fn build_widgets(list: &Vec<Widget>) -> (result: OrderedMap<Widget>)
    ensures
        result.wf(),
        widgets_keyed(result),
        widget_map(result) == widgets_stored(list@, list.len() as int),
{
    let mut result: OrderedMap<Widget> = OrderedMap::new();
    let mut i: usize = 0;
    proof {
        assert(widget_map(result) =~= widgets_stored(list@, 0));
    }
    while i < list.len()
        invariant
            i <= list.len(),
            result.wf(),
            widgets_keyed(result),
            widget_map(result) == widgets_stored(list@, i as int),
        decreases list.len() - i,
    {
        let ghost before = result;
        let widget = list[i].duplicate();
        let ghost data = widget@;
        let id = widget.id;
        result.insert(id as i128, widget);
        proof {
            assert(widget_map(result) =~= widget_map(before).insert(id, data));
        }
        i += 1;
    }
    result
}

fn build_resources(list: &Vec<Resource>) -> (result: OrderedMap<Resource>)
    ensures
        result.wf(),
        resource_map(result) == resources_stored(list@, list.len() as int),
{
    let mut result: OrderedMap<Resource> = OrderedMap::new();
    let mut i: usize = 0;
    proof {
        assert(resource_map(result) =~= resources_stored(list@, 0));
    }
    while i < list.len()
        invariant
            i <= list.len(),
            result.wf(),
            resource_map(result) == resources_stored(list@, i as int),
        decreases list.len() - i,
    {
        let ghost before = result;
        let resource = Resource {
            id: list[i].id,
            version: list[i].version,
            name: list[i].name.clone(),
        };
        let ghost data = resource@;
        let id = resource.id;
        result.insert(id as i128, resource);
        proof {
            assert(resource_map(result) =~= resource_map(before).insert(id, data));
        }
        i += 1;
    }
    result
}

fn build_items(list: &Vec<Item>) -> (result: OrderedMap<Item>)
    ensures
        result.wf(),
        items_keyed(result),
        item_map(result) == items_stored(list@, list.len() as int),
{
    let mut result: OrderedMap<Item> = OrderedMap::new();
    let mut i: usize = 0;
    proof {
        assert(item_map(result) =~= items_stored(list@, 0));
    }
    while i < list.len()
        invariant
            i <= list.len(),
            result.wf(),
            items_keyed(result),
            item_map(result) == items_stored(list@, i as int),
        decreases list.len() - i,
    {
        let ghost before = result;
        let item = list[i].duplicate();
        let ghost data = item@;
        let id = item.id;
        result.insert(id as i128, item);
        proof {
            assert(item_map(result) =~= item_map(before).insert(id, data));
        }
        i += 1;
    }
    result
}

fn build_slots(widgets: &Vec<Widget>, config: EquipmentConfig, equipment: Option<i32>) -> (result:
    Equipment)
    ensures
        result.slots.wf(),
        result.config == config,
        result.widget_id == equipment,
        result.slots@ == slots_from(widgets@, equipment, widgets.len() as int),
{
    let mut result = Equipment { config, widget_id: equipment, slots: OrderedMap::new() };
    let mut i: usize = 0;
    while i < widgets.len()
        invariant
            i <= widgets.len(),
            result.slots.wf(),
            result.config == config,
            result.widget_id == equipment,
            result.slots@ == slots_from(widgets@, equipment, i as int),
        decreases widgets.len() - i,
    {
        if Some(widgets[i].parent) == equipment {
            result.add_item(widgets[i].id, &widgets[i].pargs);
        }
        i += 1;
    }
    result
}

fn make_inventory(inventory: i32, widgets: &OrderedMap<Widget>, items: &OrderedMap<Item>) -> (result:
    OrderedMap<Item>)
    requires
        widgets.wf(),
        widgets_keyed(*widgets),
        items.wf(),
    ensures
        result.wf(),
        item_map(result) == inventory_of(widgets@, items@, inventory),
        forall|k: i128| #[trigger] result@.contains_key(k) ==> i32::MIN <= k <= i32::MAX,
{
    let mut result: OrderedMap<Item> = OrderedMap::new();
    let mut i: usize = 0;
    while i < widgets.values.len()
        invariant
            i <= widgets.values.len(),
            widgets.wf(),
            widgets_keyed(*widgets),
            items.wf(),
            result.wf(),
            forall|k: i128| #[trigger] result@.contains_key(k) ==> i32::MIN <= k <= i32::MAX,
            forall|id: i32|
                #[trigger] result@.contains_key(id as i128) <==> (exists|j: int|
                    0 <= j < i && #[trigger] widgets.keys[j] == id as i128 && widgets.values[j].parent
                        == inventory && items@.contains_key(id as i128)),
            forall|id: i32|
                #[trigger] result@.contains_key(id as i128) ==> result@[id as i128]@
                    == items@[id as i128]@,
        decreases widgets.values.len() - i,
    {
        proof {
            widgets.lemma_entry(i as int);
            assert(widgets@.contains_key(widgets.keys[i as int]));
        }
        let widget = &widgets.values[i];
        let ghost before = result;
        if widget.parent == inventory {
            if let Some(item) = items.get(widget.id as i128) {
                result.insert(widget.id as i128, item.duplicate());
            }
        }
        proof {
            let key = widgets.keys[i as int];
            assert(key == widget.id as i128);
            assert forall|id: i32|
                #[trigger] result@.contains_key(id as i128) <==> (exists|j: int|
                    0 <= j < i + 1 && #[trigger] widgets.keys[j] == id as i128
                        && widgets.values[j].parent == inventory && items@.contains_key(
                        id as i128,
                    )) by {
                if before@.contains_key(id as i128) {
                    let j = choose|j: int|
                        0 <= j < i && #[trigger] widgets.keys[j] == id as i128
                            && widgets.values[j].parent == inventory && items@.contains_key(
                            id as i128,
                        );
                    assert(widgets.keys[j] == id as i128);
                }
                if result@.contains_key(id as i128) && !before@.contains_key(id as i128) {
                    assert(widgets.keys[i as int] == id as i128);
                }
                if exists|j: int|
                    0 <= j < i + 1 && #[trigger] widgets.keys[j] == id as i128
                        && widgets.values[j].parent == inventory && items@.contains_key(
                        id as i128,
                    ) {
                    let j = choose|j: int|
                        0 <= j < i + 1 && #[trigger] widgets.keys[j] == id as i128
                            && widgets.values[j].parent == inventory && items@.contains_key(
                            id as i128,
                        );
                    if j < i {
                        assert(widgets.keys[j] == id as i128);
                        assert(before@.contains_key(id as i128));
                    }
                }
            }
        }
        i += 1;
    }
    proof {
        assert forall|id: i32|
            #[trigger] item_map(result).dom().contains(id) == inventory_of(
                widgets@,
                items@,
                inventory,
            ).dom().contains(id) by {
            if result@.contains_key(id as i128) {
                let j = choose|j: int|
                    0 <= j < i && #[trigger] widgets.keys[j] == id as i128
                        && widgets.values[j].parent == inventory && items@.contains_key(
                        id as i128,
                    );
                widgets.lemma_entry(j);
            }
            if inventory_of(widgets@, items@, inventory).dom().contains(id) {
                widgets.lemma_key_index(id as i128);
                let j = widgets.keys@.index_of(id as i128);
                assert(widgets.keys[j] == id as i128);
            }
        }
        assert(item_map(result).dom() =~= inventory_of(widgets@, items@, inventory).dom());
        assert(item_map(result) =~= inventory_of(widgets@, items@, inventory));
    }
    result
}

fn build_inventories(widgets: &OrderedMap<Widget>, items: &OrderedMap<Item>) -> (result: OrderedMap<
    OrderedMap<Item>,
>)
    requires
        widgets.wf(),
        widgets_keyed(*widgets),
        items.wf(),
    ensures
        result.wf(),
        forall|k: i128| #[trigger] result@.contains_key(k) ==> result@[k].wf(),
        forall|k: i128| #[trigger] result@.contains_key(k) ==> i32::MIN <= k <= i32::MAX,
        forall|k: i128, i: i128| #[trigger]
            result@.contains_key(k) && #[trigger] result@[k]@.contains_key(i) ==> i32::MIN <= i
                <= i32::MAX,
        inventory_maps(result) == inventories_of(widgets@, items@),
{
    let mut result: OrderedMap<OrderedMap<Item>> = OrderedMap::new();
    let mut i: usize = 0;
    while i < widgets.values.len()
        invariant
            i <= widgets.values.len(),
            widgets.wf(),
            widgets_keyed(*widgets),
            items.wf(),
            result.wf(),
            forall|k: i128| #[trigger] result@.contains_key(k) ==> result@[k].wf(),
            forall|k: i128| #[trigger] result@.contains_key(k) ==> i32::MIN <= k <= i32::MAX,
            forall|k: i128, j: i128| #[trigger]
                result@.contains_key(k) && #[trigger] result@[k]@.contains_key(j) ==> i32::MIN
                    <= j <= i32::MAX,
            forall|id: i32|
                #[trigger] result@.contains_key(id as i128) <==> (exists|j: int|
                    0 <= j < i && #[trigger] widgets.keys[j] == id as i128
                        && widgets.values[j].kind@ == "inv"@),
            forall|id: i32|
                #[trigger] result@.contains_key(id as i128) ==> item_map(result@[id as i128])
                    == inventory_of(widgets@, items@, id),
        decreases widgets.values.len() - i,
    {
        proof {
            widgets.lemma_entry(i as int);
            assert(widgets@.contains_key(widgets.keys[i as int]));
        }
        let widget = &widgets.values[i];
        let ghost before = result;
        if str_equal(widget.kind.as_str(), "inv") {
            result.insert(widget.id as i128, make_inventory(widget.id, widgets, items));
        }
        proof {
            assert forall|id: i32|
                #[trigger] result@.contains_key(id as i128) <==> (exists|j: int|
                    0 <= j < i + 1 && #[trigger] widgets.keys[j] == id as i128
                        && widgets.values[j].kind@ == "inv"@) by {
                if before@.contains_key(id as i128) {
                    let j = choose|j: int|
                        0 <= j < i && #[trigger] widgets.keys[j] == id as i128
                            && widgets.values[j].kind@ == "inv"@;
                    assert(widgets.keys[j] == id as i128);
                }
                if result@.contains_key(id as i128) && !before@.contains_key(id as i128) {
                    assert(widgets.keys[i as int] == id as i128);
                }
                if exists|j: int|
                    0 <= j < i + 1 && #[trigger] widgets.keys[j] == id as i128
                        && widgets.values[j].kind@ == "inv"@ {
                    let j = choose|j: int|
                        0 <= j < i + 1 && #[trigger] widgets.keys[j] == id as i128
                            && widgets.values[j].kind@ == "inv"@;
                    if j < i {
                        assert(widgets.keys[j] == id as i128);
                        assert(before@.contains_key(id as i128));
                    }
                }
            }
        }
        i += 1;
    }
    proof {
        assert forall|id: i32|
            #[trigger] inventory_maps(result).dom().contains(id) == inventories_of(
                widgets@,
                items@,
            ).dom().contains(id) by {
            if result@.contains_key(id as i128) {
                let j = choose|j: int|
                    0 <= j < i && #[trigger] widgets.keys[j] == id as i128
                        && widgets.values[j].kind@ == "inv"@;
                widgets.lemma_entry(j);
            }
            if inventories_of(widgets@, items@).dom().contains(id) {
                widgets.lemma_key_index(id as i128);
                let j = widgets.keys@.index_of(id as i128);
                assert(widgets.keys[j] == id as i128);
            }
        }
        assert(inventory_maps(result).dom() =~= inventories_of(widgets@, items@).dom());
        assert(inventory_maps(result) =~= inventories_of(widgets@, items@));
    }
    result
}

/// The inventories that widgets and items make up: one for each inventory
/// widget, with the known items whose widgets lie under it.
pub open spec fn inventories_in(widgets: Map<i32, WidgetData>, items: Map<i32, ItemData>) -> Map<
    i32,
    Map<i32, ItemData>,
> {
    Map::new(
        |id: i32| widgets.contains_key(id) && widgets[id].kind == "inv"@,
        |id: i32|
            Map::new(
                |item: i32|
                    widgets.contains_key(item) && widgets[item].parent == id && items.contains_key(item),
                |item: i32| items[item],
            ),
    )
}

impl Player {
    /// Whether `player` is the player of the snapshot `data`, set up with
    /// `config`.
    pub open spec fn restored(data: PlayerData, config: PlayerConfig, player: Player) -> bool {
        &&& player.wf()
        &&& player@.map_view_id == data.map_view_id
        &&& player@.game_ui_id == data.game_ui_id
        &&& player@.belt_id == data.belt_id
        &&& player@.object_id == data.object_id
        &&& player@.grid_id == data.grid_id
        &&& player@.position == data.position
        &&& player@.map_grids == data.map_grids@
        &&& player@.name == match data.name {
            Some(name) => Some(name@),
            None => None,
        }
        &&& player@.is_stuck == false
        &&& player@.stuck_detector == (StuckDetector { last_position: None, last_update: None })
        &&& player@.stamina_name == config.meters.stamina@
        &&& player@.items_config == config.items
        &&& player@.belt_slot == config.equipment.belt
        &&& player@.belt_inventory_id == first_probed(
            data.widgets@,
            Probe::BeltInventory(data.belt_id),
            data.widgets.len() as int,
        )
        &&& player@.inventory_id == first_probed(
            data.widgets@,
            Probe::MainInventory(data.game_ui_id),
            data.widgets.len() as int,
        )
        &&& player@.widgets == widgets_stored(data.widgets@, data.widgets.len() as int)
        &&& player@.resources == resources_stored(data.resources@, data.resources.len() as int)
        &&& player@.stamina_resource == Meters::stamina_from(
            config.meters.stamina@,
            player.resources.values@,
            player.resources.values.len() as int,
        )
        &&& player@.item_ids == Items::ids_from(
            config.items,
            player.resources.values@,
            player.resources.values.len() as int,
        )
        &&& player@.stamina == (Stamina {
            widget_id: match player@.stamina_resource {
                Some(resource) => first_probed(
                    player.widgets.values@,
                    Probe::StaminaMeter(resource),
                    player.widgets.values.len() as int,
                ),
                None => None,
            },
            value: data.stamina,
        })
        &&& player@.equipment_widget == first_probed(
            player.widgets.values@,
            Probe::Equipment,
            player.widgets.values.len() as int,
        )
        &&& player@.slots == slots_from(
            player.widgets.values@,
            player@.equipment_widget,
            player.widgets.values.len() as int,
        )
        &&& player@.hand == match data.game_ui_id {
            Some(game_ui_id) => match first_probed(
                player.widgets.values@,
                Probe::Hand(game_ui_id),
                player.widgets.values.len() as int,
            ) {
                Some(id) => if items_stored(data.items@, data.items.len() as int).contains_key(
                    id,
                ) {
                    Some(items_stored(data.items@, data.items.len() as int)[id])
                } else {
                    None
                },
                None => None,
            },
            None => None,
        }
        &&& player@.inventories == inventories_in(
            player@.widgets,
            items_stored(data.items@, data.items.len() as int),
        )
    }

    /// The player of a snapshot.
    ///
    /// The locators that the snapshot holds are taken as they are; the
    /// inventories of belt and player are the first widgets of the
    /// snapshot that fit; the stamina meter, the equipment and the hand
    /// are the first widgets, in the order of their ids, that fit; every
    /// inventory widget gets the items that lie under it.
    pub fn from_player_data(data: PlayerData, config: PlayerConfig) -> (result: Self)
        ensures
            Self::restored(data, config, result),
    {
        let belt_inventory_id = find_probed(&data.widgets, &Probe::BeltInventory(data.belt_id));
        let inventory_id = find_probed(&data.widgets, &Probe::MainInventory(data.game_ui_id));
        let widgets = build_widgets(&data.widgets);
        let resources = build_resources(&data.resources);
        let items = build_items(&data.items);
        let meters = Meters::from_resources(&resources.values, config.meters);
        let item_ids = Items::from_resources(&resources.values, config.items);
        let stamina = Stamina {
            widget_id: match meters.stamina {
                Some(resource) => find_probed(&widgets.values, &Probe::StaminaMeter(resource)),
                None => None,
            },
            value: data.stamina,
        };
        let equipment_widget = find_probed(&widgets.values, &Probe::Equipment);
        let equipment = build_slots(&widgets.values, config.equipment, equipment_widget);
        let hand = match data.game_ui_id {
            Some(game_ui_id) => match find_probed(&widgets.values, &Probe::Hand(game_ui_id)) {
                Some(id) => match items.get(id as i128) {
                    Some(item) => Some(item.duplicate()),
                    None => None,
                },
                None => None,
            },
            None => None,
        };
        let widget_inventories = build_inventories(&widgets, &items);
        proof {
            let target = inventories_in(widget_map(widgets), item_map(items));
            assert forall|id: i32| #[trigger]
                inventory_maps(widget_inventories).dom().contains(id) implies inventory_maps(
                widget_inventories,
            )[id] == target[id] by {
                assert(inventory_maps(widget_inventories)[id] =~= target[id]);
            }
            assert(inventory_maps(widget_inventories).dom() =~= target.dom());
            assert(inventory_maps(widget_inventories) =~= target);
        }
        Player {
            map_view_id: data.map_view_id,
            game_ui_id: data.game_ui_id,
            inventory_id,
            belt_id: data.belt_id,
            belt_inventory_id,
            name: data.name,
            object_id: data.object_id,
            grid_id: data.grid_id,
            position: data.position,
            widgets,
            map_grids: data.map_grids,
            resources,
            stuck_detector: StuckDetector::new(),
            is_stuck: false,
            meters,
            items: item_ids,
            stamina,
            equipment,
            widget_inventories,
            hand,
        }
    }
}

} // verus!
