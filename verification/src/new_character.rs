//! The task that leads a new character to the one who gives names, and
//! has it named.

use vstd::prelude::*;
use crate::geometry::Geometry;
use crate::map_db::MapDb;
use crate::protocol::{
    click_data, message_view, str_equal, values_data, Button, Event, Message, MessageData,
    Modifier, Update, Value, ValueData, WorldPos,
};
use crate::task::{Task, TaskContext};
use crate::vec2::Vec2i;
use crate::world::PlayerWorld;

verus! {

/// How near, in units of the world, a point of the way has to be to count
/// as reached: the double 1.0 as its bit pattern.
pub const MAX_DISTANCE: u64 = 0x3FF0_0000_0000_0000;

/// The name that the character is to be given.
#[derive(Debug, Clone)]
pub struct NewCharacterParams {
    pub character_name: String,
}

/// How far the naming has come.
#[derive(Debug, Clone, Copy, PartialEq, Eq, Structural)]
pub enum State {
    FindNameChanger,
    WaitForChangeNameTextId,
    WaitForName,
    HasName,
}

/// Walks along `map_pos_path` until the object named `name_changer` is in
/// sight, clicks on it, and writes `character_name` into the text widget of
/// the window that opens.
#[derive(Debug, Clone)]
pub struct NewCharacter {
    pub map_pos_path: Vec<Vec2i>,
    pub name_changer: String,
    pub character_name: String,
    pub change_name_window_id: Option<i32>,
    pub change_name_text_id: Option<i32>,
    pub state: State,
}

/// The way that a new character walks, in map positions.
pub open spec fn first_way() -> Seq<Vec2i> {
    seq![
        Vec2i { x: -924781i32, y: -941823i32 },
        Vec2i { x: -926335i32, y: -962729i32 },
        Vec2i { x: -910798i32, y: -995822i32 },
        Vec2i { x: -928122i32, y: -1018571i32 },
        Vec2i { x: -927311i32, y: -1044199i32 },
    ]
}

/// The click on the one who gives names: a right click on the object
/// `object_id` at the map position `map_pos`.
pub open spec fn name_changer_click(map_view_id: i32, object_id: i64, map_pos: Vec2i) -> MessageData {
    MessageData::WidgetMessage {
        sender: map_view_id,
        kind: "click"@,
        arguments: seq![
            ValueData::Coord(Vec2i { x: 0, y: 0 }),
            ValueData::Coord(map_pos),
            ValueData::Int(3),
            ValueData::Int(0),
            ValueData::Int(0),
            ValueData::Int(object_id as i32),
            ValueData::Coord(map_pos),
            ValueData::Int(0),
            ValueData::Int(0),
        ],
    }
}

/// The index of the first point of the way, from `from` on, that lies
/// farther than `limit` from where the player stands; the length of the
/// way where there is none.
pub open spec fn first_far<G: Geometry>(
    geometry: &G,
    path: Seq<Vec2i>,
    from: int,
    stand: WorldPos,
    limit: u64,
) -> int
    decreases path.len() - from,
{
    if from < 0 || from >= path.len() {
        path.len() as int
    } else if geometry.map_far(path[from], stand, limit) {
        from
    } else {
        first_far(geometry, path, from + 1, stand, limit)
    }
}

impl NewCharacter {
    pub fn new(params: NewCharacterParams) -> (result: Self)
        ensures
            result.map_pos_path@ == first_way(),
            result.name_changer@ == "gfx/borka/body"@,
            result.character_name@ == params.character_name@,
            result.change_name_window_id.is_none(),
            result.change_name_text_id.is_none(),
            result.state == State::FindNameChanger,
    {
        let mut map_pos_path: Vec<Vec2i> = Vec::new();
        map_pos_path.push(Vec2i { x: -924781, y: -941823 });
        map_pos_path.push(Vec2i { x: -926335, y: -962729 });
        map_pos_path.push(Vec2i { x: -910798, y: -995822 });
        map_pos_path.push(Vec2i { x: -928122, y: -1018571 });
        map_pos_path.push(Vec2i { x: -927311, y: -1044199 });
        proof {
            assert(map_pos_path@ =~= first_way());
        }
        NewCharacter {
            map_pos_path,
            name_changer: "gfx/borka/body".to_owned(),
            character_name: params.character_name,
            change_name_window_id: None,
            change_name_text_id: None,
            state: State::FindNameChanger,
        }
    }

    /// The state after the task has looked whether the player is stuck:
    /// a player that is stuck with no window open looks for the one who
    /// gives names anew.
    pub open spec fn looked(self, stuck: bool) -> State {
        if self.state != State::HasName && stuck && self.change_name_window_id.is_none()
            && self.change_name_text_id.is_none() {
            State::FindNameChanger
        } else {
            self.state
        }
    }

    /// Whether the task walks on along its way: it has no name yet, waits
    /// for nothing, and the one who gives names is not in sight.
    pub open spec fn walks<D: MapDb>(self, world: &PlayerWorld<'_, D>) -> bool {
        &&& self.looked(world.player@.is_stuck) == State::FindNameChanger
        &&& self.change_name_text_id.is_none()
        &&& !(world.objects.names().contains_key(self.name_changer@) && world.objects.live(
            world.objects.names()[self.name_changer@],
        ).is_some())
    }

    /// Whether the task in the state `self`, asked in `world`, may say
    /// `message` and be `after` from then on.
    pub open spec fn answers<D: MapDb, G: Geometry>(
        &self,
        world: &PlayerWorld<'_, D>,
        geometry: &G,
        after: &Self,
        message: Option<MessageData>,
    ) -> bool {
        &&& after.name_changer@ == self.name_changer@
        &&& after.character_name@ == self.character_name@
        &&& after.change_name_window_id == self.change_name_window_id
        &&& after.change_name_text_id == self.change_name_text_id
        &&& {
            let state = self.looked(world.player@.is_stuck);
            if state == State::HasName || state == State::WaitForName {
                &&& message.is_none()
                &&& after.state == state
                &&& after.map_pos_path@ == self.map_pos_path@
            } else if self.change_name_text_id.is_some() {
                &&& message == Some(
                    MessageData::UIMessage {
                        id: self.change_name_text_id.unwrap(),
                        kind: "settext"@,
                        arguments: seq![ValueData::Str(self.character_name@)],
                    },
                )
                &&& after.state == State::WaitForName
                &&& after.map_pos_path@ == self.map_pos_path@
            } else if state == State::WaitForChangeNameTextId {
                &&& message.is_none()
                &&& after.state == state
                &&& after.map_pos_path@ == self.map_pos_path@
            } else if !self.walks(world) {
                let seen = world.objects.live(
                    world.objects.names()[self.name_changer@],
                ).unwrap();
                &&& message == Some(
                    name_changer_click(world.map_view_id, seen.id, seen.position.map_pos),
                )
                &&& after.state == State::WaitForChangeNameTextId
                &&& after.map_pos_path@ == self.map_pos_path@
            } else {
                &&& after.state == state
                &&& after.map_pos_path@ == self.map_pos_path@.skip(
                    first_far(geometry, self.map_pos_path@, 0, world.player_position, MAX_DISTANCE),
                )
                &&& message.is_none() == (after.map_pos_path.len() == 0)
                &&& message.is_some() ==> message == Some(
                    click_data(
                        world.map_view_id,
                        after.map_pos_path[0],
                        Button::LeftClick,
                        Modifier::Unmodified,
                    ),
                )
            }
        }
    }

    /// Asks for the next message: nothing once the character has a name or
    /// while an answer is waited for; the name, once the text widget is
    /// known; the click on the one who gives names, once in sight; else
    /// the click on the next point of the way that is still far.
    pub fn next_message<D: MapDb, G: Geometry>(
        &mut self,
        world: &PlayerWorld<'_, D>,
        context: &TaskContext<'_, G>,
    ) -> (result: Option<Message>)
        requires
            world.wf(),
        ensures
            old(self).answers(world, context.geometry, final(self), message_view(result)),
    {
        if self.state == State::HasName {
            return None;
        }
        if world.is_player_stuck() && self.change_name_window_id.is_none()
            && self.change_name_text_id.is_none() {
            self.state = State::FindNameChanger;
        }
        if self.state == State::WaitForName {
            return None;
        }
        if let Some(id) = self.change_name_text_id {
            self.state = State::WaitForName;
            let mut arguments: Vec<Value> = Vec::new();
            arguments.push(Value::Str { value: self.character_name.clone() });
            proof {
                assert(values_data(arguments@) =~= seq![ValueData::Str(self.character_name@)]);
            }
            return Some(Message::ui(id, "settext", arguments));
        }
        if self.state == State::WaitForChangeNameTextId {
            return None;
        }
        if let Some(object) = world.get_object_by_name(&self.name_changer) {
            self.state = State::WaitForChangeNameTextId;
            let map_pos = object.position.map_pos;
            let mut arguments: Vec<Value> = Vec::new();
            arguments.push(Value::Coord { value: Vec2i { x: 0, y: 0 } });
            arguments.push(Value::Coord { value: map_pos });
            arguments.push(Value::Int { value: Button::RightClick.code() });
            arguments.push(Value::Int { value: Modifier::Unmodified.code() });
            arguments.push(Value::Int { value: 0 });
            arguments.push(Value::Int { value: #[verifier::truncate] (object.id as i32) });
            arguments.push(Value::Coord { value: map_pos });
            arguments.push(Value::Int { value: 0 });
            arguments.push(Value::Int { value: 0 });
            proof {
                assert(values_data(arguments@) =~= seq![
                    ValueData::Coord(Vec2i { x: 0, y: 0 }),
                    ValueData::Coord(map_pos),
                    ValueData::Int(3),
                    ValueData::Int(0),
                    ValueData::Int(0),
                    ValueData::Int(object.id as i32),
                    ValueData::Coord(map_pos),
                    ValueData::Int(0),
                    ValueData::Int(0),
                ]);
            }
            return Some(Message::widget(world.map_view_id, "click", arguments));
        }
        let mut reached: usize = 0;
        let mut stop = false;
        while reached < self.map_pos_path.len() && !stop
            invariant
                reached <= self.map_pos_path.len(),
                first_far(
                    context.geometry,
                    self.map_pos_path@,
                    reached as int,
                    world.player_position,
                    MAX_DISTANCE,
                ) == first_far(
                    context.geometry,
                    self.map_pos_path@,
                    0,
                    world.player_position,
                    MAX_DISTANCE,
                ),
                stop ==> reached < self.map_pos_path.len() && context.geometry.map_far(
                    self.map_pos_path[reached as int],
                    world.player_position,
                    MAX_DISTANCE,
                ),
            decreases self.map_pos_path.len() - reached + if stop { 0int } else { 1int },
        {
            if context.geometry.map_pos_is_far(
                self.map_pos_path[reached],
                world.player_position,
                MAX_DISTANCE,
            ) {
                stop = true;
            } else {
                reached += 1;
            }
        }
        proof {
            assert(reached == first_far(
                context.geometry,
                self.map_pos_path@,
                reached as int,
                world.player_position,
                MAX_DISTANCE,
            ));
        }
        let ghost before = self.map_pos_path@;
        self.map_pos_path = skip_first(&self.map_pos_path, reached);
        if self.map_pos_path.len() > 0 {
            Some(
                Message::click(
                    world.map_view_id,
                    self.map_pos_path[0],
                    Button::LeftClick,
                    Modifier::Unmodified,
                ),
            )
        } else {
            None
        }
    }

    /// Whether `after` is `self` once it took note of `event`: the
    /// window for the name and its text widget as they are made and
    /// destroyed, and the name being set.
    pub open spec fn noted(&self, event: Event, after: &Self) -> bool {
        &&& after.map_pos_path@ == self.map_pos_path@
        &&& after.name_changer@ == self.name_changer@
        &&& after.character_name@ == self.character_name@
        &&& after.change_name_window_id == match event {
            Event::NewWidget { id, kind, parent, pargs, cargs } => if kind@ == "wnd"@
                && cargs@.len() >= 2 && cargs@[1].data() == ValueData::Str("Change Name"@) {
                Some(id)
            } else {
                self.change_name_window_id
            },
            Event::Destroy { id } => if self.change_name_window_id == Some(id) {
                None
            } else {
                self.change_name_window_id
            },
            _ => self.change_name_window_id,
        }
        &&& after.change_name_text_id == match event {
            Event::NewWidget { id, kind, parent, pargs, cargs } => if kind@ != "wnd"@ && kind@
                == "text"@ && Some(parent) == self.change_name_window_id {
                Some(id)
            } else {
                self.change_name_text_id
            },
            Event::Destroy { id } => if self.change_name_window_id != Some(id)
                && self.change_name_text_id == Some(id) {
                None
            } else {
                self.change_name_text_id
            },
            _ => self.change_name_text_id,
        }
        &&& after.state == match event {
            Event::UIMessage { id, msg, args } => if Some(id) == self.change_name_text_id
                && msg@ == "settext"@ {
                State::HasName
            } else {
                self.state
            },
            _ => self.state,
        }
    }

    /// Takes note of an event.
    pub fn on_event(&mut self, event: &Event)
        ensures
            old(self).noted(*event, final(self)),
    {
        match event {
            Event::NewWidget { id, kind, parent, pargs, cargs } => {
                if str_equal(kind.as_str(), "wnd") {
                    if cargs.len() >= 2 {
                        if cargs[1].is_str("Change Name") {
                            self.change_name_window_id = Some(*id);
                        }
                    }
                } else if str_equal(kind.as_str(), "text") {
                    if Some(*parent) == self.change_name_window_id {
                        self.change_name_text_id = Some(*id);
                    }
                }
            },
            Event::Destroy { id } => {
                if self.change_name_window_id == Some(*id) {
                    self.change_name_window_id = None;
                } else if self.change_name_text_id == Some(*id) {
                    self.change_name_text_id = None;
                }
            },
            Event::UIMessage { id, msg, args } => {
                if Some(*id) == self.change_name_text_id && str_equal(msg.as_str(), "settext") {
                    self.state = State::HasName;
                }
            },
            _ => {},
        }
    }
}

/// The list without its first `n` elements.
pub fn skip_first(list: &Vec<Vec2i>, n: usize) -> (result: Vec<Vec2i>)
    requires
        n <= list.len(),
    ensures
        result@ == list@.skip(n as int),
{
    let mut result: Vec<Vec2i> = Vec::new();
    let mut i: usize = n;
    while i < list.len()
        invariant
            n <= i <= list.len(),
            result@ == list@.subrange(n as int, i as int),
        decreases list.len() - i,
    {
        result.push(list[i]);
        proof {
            assert(result@ =~= list@.subrange(n as int, i + 1));
        }
        i += 1;
    }
    proof {
        assert(list@.subrange(n as int, list.len() as int) =~= list@.skip(n as int));
    }
    result
}

impl Task for NewCharacter {
    open spec fn wf(&self) -> bool {
        true
    }

    open spec fn told(&self, map_view_id: i32, event: Event, after: &Self) -> bool {
        self.noted(event, after)
    }

    fn name(&self) -> (result: String)
        ensures
            result@ == "NewCharacter"@,
    {
        "NewCharacter".to_owned()
    }

    fn get_next_message<D: MapDb, G: Geometry>(
        &mut self,
        world: &PlayerWorld<'_, D>,
        context: &TaskContext<'_, G>,
    ) -> (result: Option<Message>)
        ensures
            old(self).answers(world, context.geometry, final(self), message_view(result)),
    {
        self.next_message(world, context)
    }

    fn update<D: MapDb>(&mut self, world: &PlayerWorld<'_, D>, update: &Update) {
        self.on_event(&update.event);
    }

    fn restore<D: MapDb>(&mut self, world: &PlayerWorld<'_, D>) {
    }
}

} // verus!
