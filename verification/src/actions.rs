//! Single moves of the player that tasks are built from. A move that sends
//! a message notes the time, and sends it again only after its timeout.

use vstd::prelude::*;
use crate::map_db::MapDb;
use crate::ordered_map::OrderedMap;
use crate::player::{Item, Widget};
use crate::protocol::{
    message_view, str_equal, values_data, Event, Message, MessageData, Update, Value, ValueData,
};
use crate::vec2::Vec2i;
use crate::world::PlayerWorld;

verus! {

/// Whether a message sent at `last` is still waited for at `now`: less
/// than `timeout` has gone by.
pub open spec fn waits(last: Option<u64>, now: u64, timeout: u64) -> bool {
    match last {
        Some(sent) => (if now >= sent {
            now - sent
        } else {
            0
        }) < timeout,
        None => false,
    }
}

/// Whether a message sent at `last` is still waited for at `now`.
pub fn is_waiting(last: Option<u64>, now: u64, timeout: u64) -> (result: bool)
    ensures
        result == waits(last, now, timeout),
{
    match last {
        Some(sent) => {
            let gone: u64 = if now >= sent { now - sent } else { 0 };
            gone < timeout
        },
        None => false,
    }
}

/// The item `item_id` in the first of the first `n` inventories that holds
/// it.
pub open spec fn held_item(inventories: Seq<OrderedMap<Item>>, item_id: i32, n: int) -> Option<Item>
    decreases n,
{
    if n <= 0 {
        None
    } else {
        match held_item(inventories, item_id, n - 1) {
            Some(item) => Some(item),
            None => if inventories[n - 1]@.contains_key(item_id as i128) {
                Some(inventories[n - 1]@[item_id as i128])
            } else {
                None
            },
        }
    }
}

fn find_held_item<'a>(inventories: &'a OrderedMap<OrderedMap<Item>>, item_id: i32) -> (result: Option<
    &'a Item,
>)
    requires
        inventories.wf(),
        forall|k: i128| #[trigger] inventories@.contains_key(k) ==> inventories@[k].wf(),
    ensures
        result.is_some() == held_item(
            inventories.values@,
            item_id,
            inventories.values.len() as int,
        ).is_some(),
        result.is_some() ==> *result.unwrap() == held_item(
            inventories.values@,
            item_id,
            inventories.values.len() as int,
        ).unwrap(),
{
    let mut i: usize = 0;
    while i < inventories.values.len()
        invariant
            i <= inventories.values.len(),
            inventories.wf(),
            forall|k: i128| #[trigger] inventories@.contains_key(k) ==> inventories@[k].wf(),
            held_item(inventories.values@, item_id, i as int).is_none(),
        decreases inventories.values.len() - i,
    {
        proof {
            inventories.lemma_entry(i as int);
            assert(inventories@.contains_key(inventories.keys[i as int]));
        }
        if let Some(item) = inventories.values[i].get(item_id as i128) {
            proof {
                lemma_held_item_found(inventories.values@, item_id, i + 1,
                    inventories.values.len() as int);
            }
            return Some(item);
        }
        i += 1;
    }
    None
}

/// An item found among the first `n` inventories is the item found among
/// the first `m`, for every `m` from `n` on.
pub proof fn lemma_held_item_found(inventories: Seq<OrderedMap<Item>>, item_id: i32, n: int, m: int)
    requires
        n <= m,
        held_item(inventories, item_id, n).is_some(),
    ensures
        held_item(inventories, item_id, m) == held_item(inventories, item_id, n),
    decreases m - n,
{
    if n < m {
        lemma_held_item_found(inventories, item_id, n, m - 1);
    }
}

/// Takes an item out of an inventory into the hand.
#[derive(Debug, Clone, Copy, PartialEq, Eq, Structural)]
pub struct TakeItem {
    pub item_id: i32,
    pub timeout: u64,
    pub take: Option<u64>,
    pub new_item_id: Option<i32>,
}

/// Whether an event shows that the widget `parent` was given an item at
/// the place `place`: a new item widget under `parent` with more than one
/// argument, the first of which is `place`.
pub open spec fn item_arrived(event: Event, parent_id: i32, place: ValueData) -> Option<i32> {
    match event {
        Event::NewWidget { id, kind, parent, pargs, cargs } => if kind@ == "item"@ && parent
            == parent_id && pargs@.len() > 1 && pargs@[0].data() == place {
            Some(id)
        } else {
            None
        },
        _ => None,
    }
}

impl TakeItem {
    pub fn new(item_id: i32, timeout: u64) -> (result: Self)
        ensures
            result == (TakeItem { item_id, timeout, take: None, new_item_id: None }),
    {
        TakeItem { item_id, timeout, take: None, new_item_id: None }
    }

    pub fn new_item_id(&self) -> (result: Option<i32>)
        ensures
            result == self.new_item_id,
    {
        self.new_item_id
    }

    /// What is sent at `now`, where `held` is the item as the inventories
    /// hold it: that the move is done, once the item is in the hand;
    /// nothing while the last message is waited for; else the message that
    /// takes the item from its place, or an error where the item or its
    /// place is not known.
    pub open spec fn message_at(self, held: Option<Item>, now: u64) -> Option<MessageData> {
        if self.new_item_id.is_some() {
            Some(MessageData::Done { task: "TakeItem"@ })
        } else if waits(self.take, now, self.timeout) {
            None
        } else {
            match held {
                Some(item) => match item.position {
                    Some(position) => Some(
                        MessageData::WidgetMessage {
                            sender: self.item_id,
                            kind: "take"@,
                            arguments: seq![ValueData::Coord(position)],
                        },
                    ),
                    None => Some(MessageData::Error { message: "item is not found"@ }),
                },
                None => Some(MessageData::Error { message: "item is not found"@ }),
            }
        }
    }

    /// The move after it was asked at `now`: the time is noted where a
    /// message or an error was sent.
    pub open spec fn asked_at(self, now: u64) -> TakeItem {
        if self.new_item_id.is_some() || waits(self.take, now, self.timeout) {
            self
        } else {
            TakeItem { take: Some(now), ..self }
        }
    }

    pub fn get_next_message<D: MapDb>(&mut self, world: &PlayerWorld<'_, D>, now: u64) -> (result:
        Option<Message>)
        requires
            world.wf(),
        ensures
            *final(self) == old(self).asked_at(now),
            message_view(result) == old(self).message_at(
                held_item(
                    world.player.widget_inventories.values@,
                    old(self).item_id,
                    world.player.widget_inventories.values.len() as int,
                ),
                now,
            ),
    {
        if self.new_item_id.is_some() {
            return Some(Message::done("TakeItem"));
        }
        if is_waiting(self.take, now, self.timeout) {
            return None;
        }
        self.take = Some(now);
        match find_held_item(&world.player.widget_inventories, self.item_id) {
            Some(item) => match item.position {
                Some(position) => {
                    let mut arguments: Vec<Value> = Vec::new();
                    arguments.push(Value::Coord { value: position });
                    proof {
                        assert(values_data(arguments@) =~= seq![ValueData::Coord(position)]);
                    }
                    Some(Message::widget(self.item_id, "take", arguments))
                },
                None => Some(Message::error("item is not found")),
            },
            None => Some(Message::error("item is not found")),
        }
    }

    /// Takes note of the item arriving in the hand.
    pub fn update(&mut self, game_ui_id: i32, event: &Event)
        ensures
            *final(self) == (match item_arrived(*event, game_ui_id, ValueData::Str("hand"@)) {
                Some(id) => TakeItem { new_item_id: Some(id), ..*old(self) },
                None => *old(self),
            }),
    {
        if let Event::NewWidget { id, kind, parent, pargs, .. } = event {
            if str_equal(kind.as_str(), "item") && *parent == game_ui_id && pargs.len() > 1 {
                if pargs[0].is_str("hand") {
                    self.new_item_id = Some(*id);
                }
            }
        }
    }
}

/// Puts the item in the hand into a widget at a place.
#[derive(Debug, Clone, Copy, PartialEq, Eq, Structural)]
pub struct PutItem {
    pub widget_id: i32,
    pub position: Vec2i,
    pub timeout: u64,
    pub drop: Option<u64>,
    pub new_item_id: Option<i32>,
}

impl PutItem {
    pub fn new(widget_id: i32, position: Vec2i, timeout: u64) -> (result: Self)
        ensures
            result == (PutItem { widget_id, position, timeout, drop: None, new_item_id: None }),
    {
        PutItem { widget_id, position, timeout, drop: None, new_item_id: None }
    }

    pub fn new_item_id(&self) -> (result: Option<i32>)
        ensures
            result == self.new_item_id,
    {
        self.new_item_id
    }

    /// What is sent at `now`: that the move is done, once the item has
    /// arrived; nothing while the last message is waited for; an error
    /// where the hand is empty; else the message that drops the item.
    pub open spec fn message_at(self, hand_full: bool, now: u64) -> Option<MessageData> {
        if self.new_item_id.is_some() {
            Some(MessageData::Done { task: "PutItem"@ })
        } else if waits(self.drop, now, self.timeout) {
            None
        } else if !hand_full {
            Some(MessageData::Error { message: "player hand is empty"@ })
        } else {
            Some(
                MessageData::WidgetMessage {
                    sender: self.widget_id,
                    kind: "drop"@,
                    arguments: seq![ValueData::Coord(self.position)],
                },
            )
        }
    }

    /// The move after it was asked at `now`: the time is noted where the
    /// message was sent.
    pub open spec fn asked_at(self, hand_full: bool, now: u64) -> PutItem {
        if self.new_item_id.is_some() || waits(self.drop, now, self.timeout) || !hand_full {
            self
        } else {
            PutItem { drop: Some(now), ..self }
        }
    }

    pub fn get_next_message<D: MapDb>(&mut self, world: &PlayerWorld<'_, D>, now: u64) -> (result:
        Option<Message>)
        ensures
            *final(self) == old(self).asked_at(world.player.hand.is_some(), now),
            message_view(result) == old(self).message_at(world.player.hand.is_some(), now),
    {
        if self.new_item_id.is_some() {
            return Some(Message::done("PutItem"));
        }
        if is_waiting(self.drop, now, self.timeout) {
            return None;
        }
        if world.player.hand.is_none() {
            return Some(Message::error("player hand is empty"));
        }
        self.drop = Some(now);
        let mut arguments: Vec<Value> = Vec::new();
        arguments.push(Value::Coord { value: self.position });
        proof {
            assert(values_data(arguments@) =~= seq![ValueData::Coord(self.position)]);
        }
        Some(Message::widget(self.widget_id, "drop", arguments))
    }

    /// Takes note of the item arriving at its place.
    pub fn update(&mut self, event: &Event)
        ensures
            *final(self) == (match item_arrived(
                *event,
                old(self).widget_id,
                ValueData::Coord(old(self).position),
            ) {
                Some(id) => PutItem { new_item_id: Some(id), ..*old(self) },
                None => *old(self),
            }),
    {
        if let Event::NewWidget { id, kind, parent, pargs, .. } = event {
            if str_equal(kind.as_str(), "item") && *parent == self.widget_id && pargs.len() > 1 {
                if pargs[0].is_coord(self.position) {
                    self.new_item_id = Some(*id);
                }
            }
        }
    }
}

/// Moves an item: takes it into the hand, then puts it into a widget.
#[derive(Debug, Clone, Copy, PartialEq, Eq, Structural)]
pub struct MoveItem {
    pub widget_id: i32,
    pub position: Vec2i,
    pub timeout: u64,
    pub take_item: TakeItem,
    pub put_item: Option<PutItem>,
}

impl MoveItem {
    pub fn new(item_id: i32, widget_id: i32, position: Vec2i, timeout: u64) -> (result: Self)
        ensures
            result == (MoveItem {
                widget_id,
                position,
                timeout,
                take_item: TakeItem { item_id, timeout, take: None, new_item_id: None },
                put_item: None,
            }),
    {
        MoveItem {
            widget_id,
            position,
            timeout,
            take_item: TakeItem::new(item_id, timeout),
            put_item: None,
        }
    }

    /// The id of the item where it was put, once it has arrived.
    pub fn new_item_id(&self) -> (result: Option<i32>)
        ensures
            result == match self.put_item {
                Some(put_item) => put_item.new_item_id,
                None => None,
            },
    {
        match &self.put_item {
            Some(put_item) => put_item.new_item_id(),
            None => None,
        }
    }

    /// The move with its second half begun, once the first is done.
    pub open spec fn sequenced(self) -> MoveItem {
        if self.put_item.is_none() && self.take_item.new_item_id.is_some() {
            MoveItem {
                put_item: Some(
                    PutItem {
                        widget_id: self.widget_id,
                        position: self.position,
                        timeout: self.timeout,
                        drop: None,
                        new_item_id: None,
                    },
                ),
                ..self
            }
        } else {
            self
        }
    }

    /// Asks the half of the move that is under way: the putting once the
    /// taking is done, else the taking.
    pub fn get_next_message<D: MapDb>(&mut self, world: &PlayerWorld<'_, D>, now: u64) -> (result:
        Option<Message>)
        requires
            world.wf(),
        ensures
            *final(self) == (match old(self).sequenced().put_item {
                Some(put_item) => MoveItem {
                    put_item: Some(put_item.asked_at(world.player.hand.is_some(), now)),
                    ..old(self).sequenced()
                },
                None => MoveItem { take_item: old(self).take_item.asked_at(now), ..*old(self) },
            }),
            message_view(result) == (match old(self).sequenced().put_item {
                Some(put_item) => put_item.message_at(world.player.hand.is_some(), now),
                None => old(self).take_item.message_at(
                    held_item(
                        world.player.widget_inventories.values@,
                        old(self).take_item.item_id,
                        world.player.widget_inventories.values.len() as int,
                    ),
                    now,
                ),
            }),
    {
        if self.put_item.is_none() && self.take_item.new_item_id.is_some() {
            self.put_item = Some(PutItem::new(self.widget_id, self.position, self.timeout));
        }
        match self.put_item {
            Some(mut put_item) => {
                let message = put_item.get_next_message(world, now);
                self.put_item = Some(put_item);
                message
            },
            None => self.take_item.get_next_message(world, now),
        }
    }

    /// Hands an event to the half of the move that is under way.
    pub fn update(&mut self, game_ui_id: i32, event: &Event)
        ensures
            *final(self) == (match old(self).put_item {
                Some(put_item) => MoveItem {
                    put_item: Some(
                        match item_arrived(
                            *event,
                            put_item.widget_id,
                            ValueData::Coord(put_item.position),
                        ) {
                            Some(id) => PutItem { new_item_id: Some(id), ..put_item },
                            None => put_item,
                        },
                    ),
                    ..*old(self)
                },
                None => MoveItem {
                    take_item: match item_arrived(*event, game_ui_id, ValueData::Str("hand"@)) {
                        Some(id) => TakeItem { new_item_id: Some(id), ..old(self).take_item },
                        None => old(self).take_item,
                    },
                    ..*old(self)
                },
            }),
    {
        match self.put_item {
            Some(mut put_item) => {
                put_item.update(event);
                self.put_item = Some(put_item);
            },
            None => {
                self.take_item.update(game_ui_id, event);
            },
        }
    }
}

/// The entry of a selection menu that stands for an action: the widget of
/// the menu and the number of the entry.
#[derive(Debug, Clone, Copy, PartialEq, Eq, Structural)]
pub struct UseItemAction {
    pub id: i32,
    pub index: i32,
}

/// Uses an item by choosing an action from its selection menu.
#[derive(Debug, Clone)]
pub struct UseItem {
    pub item_id: i32,
    pub action_name: String,
    pub timeout: u64,
    pub last_message: Option<u64>,
    pub action: Option<UseItemAction>,
    pub ready: bool,
    pub done: bool,
    pub locked: bool,
}

/// The mathematical value of a `UseItem`.
pub struct UseItemData {
    pub item_id: i32,
    pub action_name: Seq<char>,
    pub timeout: u64,
    pub last_message: Option<u64>,
    pub action: Option<UseItemAction>,
    pub ready: bool,
    pub done: bool,
    pub locked: bool,
}

impl View for UseItem {
    type V = UseItemData;

    open spec fn view(&self) -> UseItemData {
        UseItemData {
            item_id: self.item_id,
            action_name: self.action_name@,
            timeout: self.timeout,
            last_message: self.last_message,
            action: self.action,
            ready: self.ready,
            done: self.done,
            locked: self.locked,
        }
    }
}

/// The index of the first of the values, from `from` on and below
/// `2^31`, that is the string `text`.
pub open spec fn index_of_string(values: Seq<ValueData>, text: Seq<char>, from: int) -> Option<i32>
    decreases values.len() - from,
{
    if from < 0 || from >= values.len() || from > i32::MAX {
        None
    } else if values[from] == ValueData::Str(text) {
        Some(from as i32)
    } else {
        index_of_string(values, text, from + 1)
    }
}

fn find_string(values: &Vec<Value>, text: &String) -> (result: Option<i32>)
    ensures
        result == index_of_string(values_data(values@), text@, 0),
{
    let mut i: usize = 0;
    while i < values.len() && i <= 0x7fff_ffff
        invariant
            i <= values.len(),
            index_of_string(values_data(values@), text@, i as int) == index_of_string(
                values_data(values@),
                text@,
                0,
            ),
        decreases values.len() - i,
    {
        assert(values_data(values@)[i as int] == values@[i as int].data());
        if values[i].is_str(text.as_str()) {
            return Some(i as i32);
        }
        i += 1;
    }
    None
}

impl UseItemData {
    /// What is sent at `now`. Once the action is done: that it is done.
    /// With the entry of the menu known: nothing until the menu is ready
    /// and the last message is no longer waited for, then the choice of
    /// the entry. Without it: first the lock of the selection menu, then,
    /// once the last message is no longer waited for, the request for the
    /// menu.
    pub open spec fn message_at(self, now: u64) -> Option<MessageData> {
        if self.done {
            Some(MessageData::Done { task: "UseItem"@ })
        } else {
            match self.action {
                Some(action) => if !self.ready || waits(self.last_message, now, self.timeout) {
                    None
                } else {
                    Some(
                        MessageData::WidgetMessage {
                            sender: action.id,
                            kind: "cl"@,
                            arguments: seq![ValueData::Int(action.index), ValueData::Int(0)],
                        },
                    )
                },
                None => if !self.locked {
                    Some(MessageData::LockWidget { value: "sm"@ })
                } else if waits(self.last_message, now, self.timeout) {
                    None
                } else {
                    Some(
                        MessageData::WidgetMessage {
                            sender: self.item_id,
                            kind: "iact"@,
                            arguments: seq![
                                ValueData::Coord(Vec2i { x: 0, y: 0 }),
                                ValueData::Int(0),
                            ],
                        },
                    )
                },
            }
        }
    }

    /// The move after it was asked at `now`: the lock is noted, and the
    /// time of each message to a widget.
    pub open spec fn asked_at(self, now: u64) -> UseItemData {
        if self.done {
            self
        } else {
            match self.action {
                Some(action) => if !self.ready || waits(self.last_message, now, self.timeout) {
                    self
                } else {
                    UseItemData { last_message: Some(now), ..self }
                },
                None => if !self.locked {
                    UseItemData { locked: true, ..self }
                } else if waits(self.last_message, now, self.timeout) {
                    self
                } else {
                    UseItemData { last_message: Some(now), ..self }
                },
            }
        }
    }

    /// The move after an event. A new selection menu is searched for the
    /// action; the menu being put in place makes the move ready; the menu
    /// saying `act` ends the move, the menu saying `cancel` starts it anew.
    pub open spec fn after(self, event: Event) -> UseItemData {
        if self.done {
            self
        } else {
            match event {
                Event::NewWidget { id, kind, parent, pargs, cargs } => if kind@ == "sm"@
                    && cargs@.len() >= 1 {
                    UseItemData {
                        action: match index_of_string(values_data(cargs@), self.action_name, 0) {
                            Some(index) => Some(UseItemAction { id, index }),
                            None => None,
                        },
                        ready: false,
                        last_message: None,
                        ..self
                    }
                } else {
                    self
                },
                Event::AddWidget { id, parent, pargs } => if self.action.is_some()
                    && self.action.unwrap().id == id {
                    UseItemData { ready: true, last_message: None, ..self }
                } else {
                    self
                },
                Event::UIMessage { id, msg, args } => if self.action.is_some()
                    && self.action.unwrap().id == id {
                    if msg@ == "act"@ {
                        UseItemData { done: true, ..self }
                    } else if msg@ == "cancel"@ {
                        UseItemData { action: None, ready: false, last_message: None, ..self }
                    } else {
                        self
                    }
                } else {
                    self
                },
                _ => self,
            }
        }
    }
}

fn use_item_arguments(first: Value) -> (result: Vec<Value>)
    ensures
        values_data(result@) == seq![first.data(), ValueData::Int(0)],
{
    let mut arguments: Vec<Value> = Vec::new();
    arguments.push(first);
    arguments.push(Value::Int { value: 0 });
    proof {
        assert(values_data(arguments@) =~= seq![first.data(), ValueData::Int(0)]);
    }
    arguments
}

impl UseItem {
    pub fn new(item_id: i32, action_name: String, timeout: u64) -> (result: Self)
        ensures
            result@ == (UseItemData {
                item_id,
                action_name: action_name@,
                timeout,
                last_message: None,
                action: None,
                ready: false,
                done: false,
                locked: false,
            }),
    {
        UseItem {
            item_id,
            action_name,
            timeout,
            last_message: None,
            action: None,
            ready: false,
            done: false,
            locked: false,
        }
    }

    pub fn item_id(&self) -> (result: i32)
        ensures
            result == self.item_id,
    {
        self.item_id
    }

    pub fn get_next_message(&mut self, now: u64) -> (result: Option<Message>)
        ensures
            final(self)@ == old(self)@.asked_at(now),
            message_view(result) == old(self)@.message_at(now),
    {
        if self.done {
            return Some(Message::done("UseItem"));
        }
        match self.action {
            Some(action) => {
                if !self.ready {
                    return None;
                }
                if is_waiting(self.last_message, now, self.timeout) {
                    return None;
                }
                self.last_message = Some(now);
                Some(
                    Message::widget(
                        action.id,
                        "cl",
                        use_item_arguments(Value::Int { value: action.index }),
                    ),
                )
            },
            None => {
                if !self.locked {
                    self.locked = true;
                    return Some(Message::LockWidget { value: "sm".to_owned() });
                }
                if is_waiting(self.last_message, now, self.timeout) {
                    return None;
                }
                self.last_message = Some(now);
                Some(
                    Message::widget(
                        self.item_id,
                        "iact",
                        use_item_arguments(Value::Coord { value: Vec2i { x: 0, y: 0 } }),
                    ),
                )
            },
        }
    }

    pub fn update(&mut self, update: &Update)
        ensures
            final(self)@ == old(self)@.after(update.event),
    {
        if self.done {
            return ;
        }
        match &update.event {
            Event::NewWidget { id, kind, parent, pargs, cargs } => {
                if str_equal(kind.as_str(), "sm") && cargs.len() >= 1 {
                    self.action = match find_string(cargs, &self.action_name) {
                        Some(index) => Some(UseItemAction { id: *id, index }),
                        None => None,
                    };
                    self.ready = false;
                    self.last_message = None;
                }
            },
            Event::AddWidget { id, parent, pargs } => {
                let ours = match self.action {
                    Some(action) => action.id == *id,
                    None => false,
                };
                if ours {
                    self.ready = true;
                    self.last_message = None;
                }
            },
            Event::UIMessage { id, msg, args } => {
                let ours = match self.action {
                    Some(action) => action.id == *id,
                    None => false,
                };
                if ours {
                    if str_equal(msg.as_str(), "act") {
                        self.done = true;
                    } else if str_equal(msg.as_str(), "cancel") {
                        self.action = None;
                        self.ready = false;
                        self.last_message = None;
                    }
                }
            },
            _ => {},
        }
    }
}

/// Opens the belt of the player.
#[derive(Debug, Clone, Copy, PartialEq, Eq, Structural)]
pub struct OpenBelt {
    pub timeout: u64,
    pub last_message: Option<u64>,
    pub item_id: Option<i32>,
    pub widget_id: Option<i32>,
}

/// Whether the widget is the window of the belt: a window under the game
/// interface that was put in place with the list `id`, `toolbelt` as its
/// third argument.
pub open spec fn is_belt_window(widget: Widget, game_ui_id: i32) -> bool {
    &&& widget.kind@ == "wnd"@
    &&& widget.parent == game_ui_id
    &&& widget.pargs_add@.len() >= 3
    &&& widget.pargs_add@[2].data() == ValueData::List(
        seq![ValueData::Str("id"@), ValueData::Str("toolbelt"@)],
    )
}

/// The id of the first of the first `n` widgets that is the window of the
/// belt.
pub open spec fn belt_window(widgets: Seq<Widget>, game_ui_id: i32, n: int) -> Option<i32>
    decreases n,
{
    if n <= 0 {
        None
    } else {
        match belt_window(widgets, game_ui_id, n - 1) {
            Some(id) => Some(id),
            None => if is_belt_window(widgets[n - 1], game_ui_id) {
                Some(widgets[n - 1].id)
            } else {
                None
            },
        }
    }
}

/// A window found among the first `n` widgets is the window found among
/// the first `m`, for every `m` from `n` on.
pub proof fn lemma_belt_window_found(widgets: Seq<Widget>, game_ui_id: i32, n: int, m: int)
    requires
        n <= m,
        belt_window(widgets, game_ui_id, n).is_some(),
    ensures
        belt_window(widgets, game_ui_id, m) == belt_window(widgets, game_ui_id, n),
    decreases m - n,
{
    if n < m {
        lemma_belt_window_found(widgets, game_ui_id, n, m - 1);
    }
}

fn find_belt_window(widgets: &OrderedMap<Widget>, game_ui_id: i32) -> (result: Option<i32>)
    ensures
        result == belt_window(widgets.values@, game_ui_id, widgets.values.len() as int),
{
    let mut i: usize = 0;
    while i < widgets.values.len()
        invariant
            i <= widgets.values.len(),
            belt_window(widgets.values@, game_ui_id, i as int).is_none(),
        decreases widgets.values.len() - i,
    {
        let widget = &widgets.values[i];
        if str_equal(widget.kind.as_str(), "wnd") && widget.parent == game_ui_id
            && widget.pargs_add.len() >= 3 {
            if widget.pargs_add[2].is_str_pair("id", "toolbelt") {
                proof {
                    lemma_belt_window_found(
                        widgets.values@,
                        game_ui_id,
                        i + 1,
                        widgets.values.len() as int,
                    );
                }
                return Some(widget.id);
            }
        }
        i += 1;
    }
    None
}

impl OpenBelt {
    pub fn new(timeout: u64) -> (result: Self)
        ensures
            result == (OpenBelt { timeout, last_message: None, item_id: None, widget_id: None }),
    {
        OpenBelt { timeout, last_message: None, item_id: None, widget_id: None }
    }

    /// The move with the belt item and the belt window as they are now: a
    /// new belt item forgets the window; a window that is gone is
    /// forgotten; with no window remembered, the first belt window among
    /// the widgets, if there is one, is remembered.
    pub open spec fn looked(
        self,
        belt: Option<i32>,
        window_open: bool,
        found: Option<i32>,
    ) -> OpenBelt {
        let fresh = if self.item_id != belt {
            OpenBelt { item_id: belt, widget_id: None, ..self }
        } else {
            self
        };
        if fresh.widget_id.is_some() && window_open {
            fresh
        } else {
            OpenBelt { widget_id: found, ..fresh }
        }
    }

    /// What is sent at `now` after the move has looked: that it is done,
    /// with the window open; else nothing while the last message is waited
    /// for, else the click on the belt item; an error without a belt item.
    pub open spec fn message_at(self, now: u64) -> Option<MessageData> {
        if self.widget_id.is_some() {
            Some(MessageData::Done { task: "OpenBelt"@ })
        } else {
            match self.item_id {
                Some(item_id) => if waits(self.last_message, now, self.timeout) {
                    None
                } else {
                    Some(
                        MessageData::WidgetMessage {
                            sender: item_id,
                            kind: "iact"@,
                            arguments: seq![
                                ValueData::Coord(Vec2i { x: 0, y: 0 }),
                                ValueData::Int(0),
                            ],
                        },
                    )
                },
                None => Some(MessageData::Error { message: "belt item is not found"@ }),
            }
        }
    }

    /// The move after it has looked and was asked at `now`: the time of
    /// the click is noted.
    pub open spec fn asked_at(self, now: u64) -> OpenBelt {
        if self.widget_id.is_none() && self.item_id.is_some() && !waits(
            self.last_message,
            now,
            self.timeout,
        ) {
            OpenBelt { last_message: Some(now), ..self }
        } else {
            self
        }
    }

    pub fn get_next_message<D: MapDb>(&mut self, world: &PlayerWorld<'_, D>, now: u64) -> (result:
        Option<Message>)
        requires
            world.wf(),
        ensures
            ({
                let belt = if world.player_equipment.slots@.contains_key(
                    world.player_equipment.config.belt as i128,
                ) {
                    Some(world.player_equipment.slots@[world.player_equipment.config.belt as i128])
                } else {
                    None
                };
                let open = old(self).item_id == belt && old(self).widget_id.is_some()
                    && world.player.widgets@.contains_key(old(self).widget_id.unwrap() as i128);
                let looked = old(self).looked(
                    belt,
                    open,
                    belt_window(
                        world.player.widgets.values@,
                        world.game_ui_id,
                        world.player.widgets.values.len() as int,
                    ),
                );
                &&& *final(self) == looked.asked_at(now)
                &&& message_view(result) == looked.message_at(now)
            }),
    {
        let item_id = world.player_equipment.belt();
        if self.item_id != item_id {
            self.item_id = item_id;
            self.widget_id = None;
        }
        if let Some(widget_id) = self.widget_id {
            if world.player.widgets.contains_key(widget_id as i128) {
                return Some(Message::done("OpenBelt"));
            } else {
                self.widget_id = None;
            }
        }
        self.widget_id = find_belt_window(&world.player.widgets, world.game_ui_id);
        if self.widget_id.is_some() {
            return Some(Message::done("OpenBelt"));
        }
        match self.item_id {
            Some(item_id) => {
                if is_waiting(self.last_message, now, self.timeout) {
                    return None;
                }
                self.last_message = Some(now);
                Some(
                    Message::widget(
                        item_id,
                        "iact",
                        use_item_arguments(Value::Coord { value: Vec2i { x: 0, y: 0 } }),
                    ),
                )
            },
            None => Some(Message::error("belt item is not found")),
        }
    }
}

} // verus!
