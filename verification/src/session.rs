//! One session: its world, its player and its tasks, brought up to date
//! event by event and asked, tick by tick, for the next message.

use vstd::prelude::*;
use crate::actions::OpenBelt;
use crate::drinker::{Drinker, DrinkerConfig, DrinkerData};
use crate::exp_wnd_closer::{exp_windows, ExpWndCloser};
use crate::explorer::Explorer;
use crate::geometry::Geometry;
use crate::map_db::MapDb;
use crate::new_character::{first_way, NewCharacter, NewCharacterParams, State};
use crate::path_finder::{PathFinder, PathFinderConfig};
use crate::player::{Player, PlayerConfig, PlayerData};
use crate::protocol::{
    message_view, str_equal, values_data, Event, Message, MessageData, Update, Value, ValueData,
};
use crate::task::{Task, TaskContext};
use crate::vec2::Vec2i;
use crate::world::{PlayerWorld, World, WorldConfig, WorldData};

verus! {

/// What the tasks of a session are set up with.
#[derive(Debug, Clone)]
pub struct TaskConfigs {
    pub path_finder: PathFinderConfig,
    pub drinker: DrinkerConfig,
}

/// What a session is set up with.
#[derive(Debug, Clone)]
pub struct SessionConfig {
    pub world: WorldConfig,
    pub player: PlayerConfig,
    pub tasks: TaskConfigs,
}

/// A task of one of the kinds that a session knows.
pub enum TaskKind {
    Explorer(Explorer),
    ExpWndCloser(ExpWndCloser),
    NewCharacter(NewCharacter),
    PathFinder(PathFinder),
    Drinker(Drinker),
}

/// A task with its id in the session and what it was made from.
pub struct TaskWithParams {
    pub id: i64,
    pub name: String,
    pub params: Vec<u8>,
    pub value: TaskKind,
}

/// A task as a snapshot holds it.
#[derive(Debug, Clone, PartialEq)]
pub struct TaskParams {
    pub id: i64,
    pub name: String,
    pub params: Vec<u8>,
}

impl TaskKind {
    /// Whether `after` is `self` once it was told of `event` in a world
    /// whose map view is the widget `map_view_id`.
    pub open spec fn told(&self, map_view_id: i32, event: Event, after: &TaskKind) -> bool {
        match (*self, *after) {
            (TaskKind::Explorer(a), TaskKind::Explorer(b)) => a.told(map_view_id, event, &b),
            (TaskKind::ExpWndCloser(a), TaskKind::ExpWndCloser(b)) => a.told(
                map_view_id,
                event,
                &b,
            ),
            (TaskKind::NewCharacter(a), TaskKind::NewCharacter(b)) => a.told(
                map_view_id,
                event,
                &b,
            ),
            (TaskKind::PathFinder(a), TaskKind::PathFinder(b)) => a.told(map_view_id, event, &b),
            (TaskKind::Drinker(a), TaskKind::Drinker(b)) => a.told(map_view_id, event, &b),
            _ => false,
        }
    }

    /// Whether `after` is a task of the same kind.
    pub open spec fn same_kind(&self, after: &TaskKind) -> bool {
        match (*self, *after) {
            (TaskKind::Explorer(_), TaskKind::Explorer(_)) => true,
            (TaskKind::ExpWndCloser(_), TaskKind::ExpWndCloser(_)) => true,
            (TaskKind::NewCharacter(_), TaskKind::NewCharacter(_)) => true,
            (TaskKind::PathFinder(_), TaskKind::PathFinder(_)) => true,
            (TaskKind::Drinker(_), TaskKind::Drinker(_)) => true,
            _ => false,
        }
    }

    /// The name of the kind as a text.
    pub open spec fn kind_name(&self) -> Seq<char> {
        match self {
            TaskKind::Explorer(_) => "Explorer"@,
            TaskKind::ExpWndCloser(_) => "ExpWndCloser"@,
            TaskKind::NewCharacter(_) => "NewCharacter"@,
            TaskKind::PathFinder(_) => "PathFinder"@,
            TaskKind::Drinker(_) => "Drinker"@,
        }
    }

    /// The name of the kind.
    pub fn name(&self) -> (result: String)
        ensures
            result@ == self.kind_name(),
    {
        match self {
            TaskKind::Explorer(task) => task.name(),
            TaskKind::ExpWndCloser(task) => task.name(),
            TaskKind::NewCharacter(task) => task.name(),
            TaskKind::PathFinder(task) => task.name(),
            TaskKind::Drinker(task) => task.name(),
        }
    }

    /// Whether a task in the state `self`, asked in `world` at the time
    /// `now`, may say `message` and be `after` from then on: what its kind
    /// lays down.
    pub open spec fn asked<D: MapDb, G: Geometry>(
        &self,
        world: &PlayerWorld<'_, D>,
        geometry: &G,
        now: u64,
        after: &Self,
        message: Option<MessageData>,
    ) -> bool {
        match (*self, *after) {
            (TaskKind::Explorer(was), TaskKind::Explorer(is)) => was.answers(
                world,
                geometry,
                &is,
                message,
            ),
            (TaskKind::ExpWndCloser(was), TaskKind::ExpWndCloser(is)) => was.answers(&is, message),
            (TaskKind::NewCharacter(was), TaskKind::NewCharacter(is)) => was.answers(
                world,
                geometry,
                &is,
                message,
            ),
            (TaskKind::PathFinder(was), TaskKind::PathFinder(is)) => was.answers(
                world,
                geometry,
                &is,
                message,
            ),
            (TaskKind::Drinker(was), TaskKind::Drinker(is)) => was.answers(
                world,
                now,
                &is,
                message,
            ),
            _ => false,
        }
    }

    /// The next message of the task.
    pub fn get_next_message<D: MapDb, G: Geometry>(
        &mut self,
        world: &PlayerWorld<'_, D>,
        context: &TaskContext<'_, G>,
    ) -> (result: Option<Message>)
        requires
            world.wf(),
        ensures
            old(self).same_kind(final(self)),
            old(self).asked(world, context.geometry, context.now, final(self), message_view(result)),
    {
        match self {
            TaskKind::Explorer(task) => task.next_message(world, context),
            TaskKind::ExpWndCloser(task) => task.next_message(),
            TaskKind::NewCharacter(task) => task.next_message(world, context),
            TaskKind::PathFinder(task) => task.next_message(world, context),
            TaskKind::Drinker(task) => task.next_message(world, context.now),
        }
    }

    /// Tells the task of an event, with the world as it was before it.
    pub fn update<D: MapDb>(&mut self, world: &PlayerWorld<'_, D>, update: &Update)
        requires
            world.wf(),
        ensures
            old(self).told(world.map_view_id, update.event, final(self)),
    {
        match self {
            TaskKind::Explorer(task) => task.update(world, update),
            TaskKind::ExpWndCloser(task) => task.update(world, update),
            TaskKind::NewCharacter(task) => task.update(world, update),
            TaskKind::PathFinder(task) => task.update(world, update),
            TaskKind::Drinker(task) => task.update(world, update),
        }
    }

    /// Whether `after` is `self` once it found its bearings in `world`:
    /// the task that closes windows takes note of the windows that the
    /// player has; every other task stays as it is.
    pub open spec fn settled<D: MapDb>(&self, world: &PlayerWorld<'_, D>, after: &Self) -> bool {
        match (*self, *after) {
            (TaskKind::ExpWndCloser(was), TaskKind::ExpWndCloser(is)) => is.closed@ == was.closed@
                && is.exp_wnd_ids@ == was.exp_wnd_ids@ + exp_windows(
                world.player.widgets.values@,
                world.player.widgets.values.len() as int,
            ),
            (TaskKind::ExpWndCloser(_), _) => false,
            _ => *after == *self,
        }
    }

    /// Lets the task find its bearings in a world it was not told of.
    pub fn restore<D: MapDb>(&mut self, world: &PlayerWorld<'_, D>)
        requires
            world.wf(),
        ensures
            old(self).same_kind(final(self)),
            old(self).settled(world, final(self)),
    {
        match self {
            TaskKind::ExpWndCloser(task) => task.take_windows(&world.player.widgets.values),
            _ => {},
        }
    }
}

/// Which kind of task a name stands for.
pub enum TaskName {
    Explorer,
    ExpWndCloser,
    NewCharacter,
    PathFinder,
    Drinker,
    Unknown,
}

/// The kind of task that `name` stands for.
pub open spec fn task_named(name: Seq<char>) -> TaskName {
    if name == "Explorer"@ {
        TaskName::Explorer
    } else if name == "ExpWndCloser"@ {
        TaskName::ExpWndCloser
    } else if name == "NewCharacter"@ {
        TaskName::NewCharacter
    } else if name == "PathFinder"@ {
        TaskName::PathFinder
    } else if name == "Drinker"@ {
        TaskName::Drinker
    } else {
        TaskName::Unknown
    }
}

/// Whether `task` is a new task of the kind named `name`: an explorer that
/// knows no border and no way; a closer that has seen no window; a new
/// character named as `character` says, at the start of its way; a path
/// finder without a destination; a drinker that has not begun to drink.
pub open spec fn made(
    name: Seq<char>,
    character: Option<NewCharacterParams>,
    configs: &TaskConfigs,
    task: TaskKind,
) -> bool {
    match task {
        TaskKind::Explorer(explorer) => {
            &&& task_named(name) is Explorer
            &&& explorer.border_tiles@ == Seq::<Vec2i>::empty()
            &&& explorer.tile_pos_path@ == Seq::<Vec2i>::empty()
        },
        TaskKind::ExpWndCloser(closer) => {
            &&& task_named(name) is ExpWndCloser
            &&& closer.closed@ == Seq::<i32>::empty()
            &&& closer.exp_wnd_ids@ == Seq::<i32>::empty()
        },
        TaskKind::NewCharacter(new_character) => {
            &&& task_named(name) is NewCharacter
            &&& character.is_some()
            &&& new_character.map_pos_path@ == first_way()
            &&& new_character.name_changer@ == "gfx/borka/body"@
            &&& new_character.character_name@ == character.unwrap().character_name@
            &&& new_character.change_name_window_id.is_none()
            &&& new_character.change_name_text_id.is_none()
            &&& new_character.state == State::FindNameChanger
        },
        TaskKind::PathFinder(path_finder) => {
            &&& task_named(name) is PathFinder
            &&& path_finder.destination.is_none()
            &&& path_finder.tile_pos_path@ == Seq::<Vec2i>::empty()
            &&& path_finder.config == configs.path_finder
        },
        TaskKind::Drinker(drinker) => {
            &&& task_named(name) is Drinker
            &&& drinker.config@ == configs.drinker@
            &&& drinker@ == (DrinkerData {
                open_belt: OpenBelt {
                    timeout: configs.drinker.open_belt_timeout,
                    last_message: None,
                    item_id: None,
                    widget_id: None,
                },
                sip: None,
                wait_interval: None,
                last_sip: None,
            })
        },
    }
}

/// Whether `task` is a new task of the kind named `name` that has found
/// its bearings in `world` as `player` sees it, where the player is
/// located there.
pub open spec fn remade<D: MapDb>(
    name: Seq<char>,
    character: Option<NewCharacterParams>,
    configs: &TaskConfigs,
    world: &World<D>,
    player: &Player,
    task: TaskKind,
) -> bool {
    exists|new_task: TaskKind| #[trigger]
        made(name, character, configs, new_task) && if world.locates(player) {
            exists|view: PlayerWorld<'_, D>|
                world.shows(player, view) && #[trigger] new_task.settled(&view, &task)
        } else {
            task == new_task
        }
}

/// Makes a task of the kind named `name`. A new character needs the name
/// it is to be given, read from the parameters of the task: `character`.
pub fn make_task(name: &str, character: Option<NewCharacterParams>, configs: &TaskConfigs) -> (result:
    Result<TaskKind, String>)
    ensures
        match task_named(name@) {
            TaskName::Explorer => result is Ok && result->Ok_0 is Explorer,
            TaskName::ExpWndCloser => result is Ok && result->Ok_0 is ExpWndCloser,
            TaskName::NewCharacter => match character {
                Some(params) => result is Ok && result->Ok_0 is NewCharacter
                    && result->Ok_0->NewCharacter_0.character_name@ == params.character_name@,
                None => result is Err && result->Err_0@
                    == "Failed to parse NewCharacter bot params"@,
            },
            TaskName::PathFinder => result is Ok && result->Ok_0 is PathFinder
                && result->Ok_0->PathFinder_0.config == configs.path_finder,
            TaskName::Drinker => result is Ok && result->Ok_0 is Drinker
                && result->Ok_0->Drinker_0.config@ == configs.drinker@,
            TaskName::Unknown => result is Err && result->Err_0@ == "Task is not found"@,
        },
        result is Ok ==> made(name@, character, configs, result->Ok_0),
{
    if str_equal(name, "Explorer") {
        Ok(TaskKind::Explorer(Explorer::new()))
    } else if str_equal(name, "ExpWndCloser") {
        Ok(TaskKind::ExpWndCloser(ExpWndCloser::new()))
    } else if str_equal(name, "NewCharacter") {
        match character {
            Some(params) => Ok(TaskKind::NewCharacter(NewCharacter::new(params))),
            None => Err("Failed to parse NewCharacter bot params".to_owned()),
        }
    } else if str_equal(name, "PathFinder") {
        Ok(TaskKind::PathFinder(PathFinder::new(configs.path_finder)))
    } else if str_equal(name, "Drinker") {
        Ok(TaskKind::Drinker(Drinker::new(configs.drinker.duplicate())))
    } else {
        Err("Task is not found".to_owned())
    }
}

/// A session.
///
/// `last_update` is the number of the last update taken in; `messages`
/// are the messages that wait to be sent, the oldest first.
pub struct Session<D: MapDb> {
    pub id: i64,
    pub last_update: i64,
    pub world: World<D>,
    pub player: Player,
    pub task_id_counter: i64,
    pub tasks: Vec<TaskWithParams>,
    pub messages: Vec<Message>,
    pub task_configs: TaskConfigs,
}

/// The views of the messages, in order.
pub open spec fn message_views(messages: Seq<Message>) -> Seq<MessageData> {
    Seq::new(messages.len(), |i: int| messages[i]@)
}

/// The first `n` tasks without those with the id `id`.
pub open spec fn tasks_without(tasks: Seq<TaskWithParams>, id: i64, n: int) -> Seq<TaskWithParams>
    decreases n,
{
    if n <= 0 {
        Seq::empty()
    } else if tasks[n - 1].id == id {
        tasks_without(tasks, id, n - 1)
    } else {
        tasks_without(tasks, id, n - 1).push(tasks[n - 1])
    }
}

/// The message that tells the game of a new task.
pub open spec fn add_task_message(
    game_ui_id: i32,
    id: i64,
    name: Seq<char>,
    params: Seq<u8>,
) -> MessageData {
    MessageData::UIMessage {
        id: game_ui_id,
        kind: "add-task"@,
        arguments: seq![ValueData::Long(id), ValueData::Str(name), ValueData::Bytes(params)],
    }
}

/// The message that tells the game that a task is gone.
pub open spec fn remove_task_message(game_ui_id: i32, id: i64) -> MessageData {
    MessageData::UIMessage {
        id: game_ui_id,
        kind: "remove-task"@,
        arguments: seq![ValueData::Long(id)],
    }
}

/// The messages that tell the game that the first `n` tasks are gone.
pub open spec fn remove_task_messages(game_ui_id: i32, tasks: Seq<TaskWithParams>, n: int) -> Seq<
    MessageData,
>
    decreases n,
{
    if n <= 0 {
        Seq::empty()
    } else {
        remove_task_messages(game_ui_id, tasks, n - 1).push(
            remove_task_message(game_ui_id, tasks[n - 1].id),
        )
    }
}

/// A counter one greater, held at the greatest value.
pub open spec fn next_id(counter: i64) -> i64 {
    if counter < i64::MAX {
        (counter + 1) as i64
    } else {
        counter
    }
}

fn make_remove_task_message(game_ui_id: i32, id: i64) -> (result: Message)
    ensures
        result@ == remove_task_message(game_ui_id, id),
{
    let mut arguments: Vec<Value> = Vec::new();
    arguments.push(Value::Long { value: id });
    proof {
        assert(values_data(arguments@) =~= seq![ValueData::Long(id)]);
    }
    Message::ui(game_ui_id, "remove-task", arguments)
}

impl<D: MapDb> Session<D> {
    /// Whether world and player are well formed.
    pub open spec fn wf(&self) -> bool {
        self.world.wf() && self.player.wf()
    }

    /// A session that has taken nothing in yet.
    pub fn new(id: i64, map_db: D, config: SessionConfig) -> (result: Self)
        ensures
            result.wf(),
            result.id == id,
            result.last_update == 0,
            result.task_id_counter == 0,
            result.tasks@ == Seq::<TaskWithParams>::empty(),
            result.messages@ == Seq::<Message>::empty(),
            result.world.revision == 0,
            result.world.config == config.world,
            result.task_configs == config.tasks,
            !result.world.locates(&result.player),
    {
        Session {
            id,
            last_update: 0,
            world: World::new(config.world, map_db),
            player: Player::new(config.player),
            task_id_counter: 0,
            tasks: Vec::new(),
            messages: Vec::new(),
            task_configs: config.tasks,
        }
    }

    /// The names of the tasks, in order.
    pub fn get_tasks(&self) -> (result: Vec<String>)
        ensures
            result.len() == self.tasks.len(),
            forall|i: int| 0 <= i < result.len() ==> (#[trigger] result[i])@ == self.tasks[i].name@,
    {
        let mut names: Vec<String> = Vec::new();
        let mut i: usize = 0;
        while i < self.tasks.len()
            invariant
                i <= self.tasks.len(),
                names.len() == i,
                forall|k: int| 0 <= k < i ==> (#[trigger] names[k])@ == self.tasks[k].name@,
            decreases self.tasks.len() - i,
        {
            names.push(self.tasks[i].name.clone());
            i += 1;
        }
        names
    }

    /// Adds a task of the kind named `name`, made from `params`; for a new
    /// character, `character` is the name read from `params`. The task
    /// takes the next id, and the game is told of it as soon as the game
    /// interface is known. A name that stands for no kind, or a missing
    /// name for the character, fails and uses up the id.
    pub fn add_task(&mut self, name: &str, params: Vec<u8>,
        character: Option<NewCharacterParams>) -> (result:
        Result<(), String>)
        requires
            old(self).wf(),
        ensures
            final(self).wf(),
            final(self).world == old(self).world,
            final(self).player == old(self).player,
            final(self).last_update == old(self).last_update,
            final(self).id == old(self).id,
            final(self).task_configs == old(self).task_configs,
            final(self).task_id_counter == next_id(old(self).task_id_counter),
            (result is Ok) == !(task_named(name@) is Unknown || (task_named(name@) is NewCharacter
                && character.is_none())),
            result is Err ==> final(self).tasks@ == old(self).tasks@ && final(self).messages@
                == old(self).messages@,
            result is Ok ==> {
                &&& final(self).tasks.len() == old(self).tasks.len() + 1
                &&& final(self).tasks@.drop_last() == old(self).tasks@
                &&& final(self).tasks@.last().id == final(self).task_id_counter
                &&& final(self).tasks@.last().name@ == name@
                &&& final(self).tasks@.last().params@ == params@
                &&& made(name@, character, &old(self).task_configs, final(self).tasks@.last().value)
                &&& message_views(final(self).messages@) == match old(self).player@.game_ui_id {
                    Some(game_ui_id) => message_views(old(self).messages@).push(
                        add_task_message(game_ui_id, final(self).task_id_counter, name@, params@),
                    ),
                    None => message_views(old(self).messages@),
                }
            },
    {
        if self.task_id_counter < i64::MAX {
            self.task_id_counter = self.task_id_counter + 1;
        }
        let id = self.task_id_counter;
        let value = match make_task(name, character, &self.task_configs) {
            Ok(value) => value,
            Err(error) => {
                return Err(error);
            },
        };
        let ghost before_tasks = self.tasks@;
        self.tasks.push(
            TaskWithParams { id, name: name.to_owned(), params: params.clone(), value },
        );
        proof {
            assert(self.tasks@.drop_last() =~= before_tasks);
        }
        if let Some(game_ui_id) = self.player.game_ui_id() {
            let mut arguments: Vec<Value> = Vec::new();
            arguments.push(Value::Long { value: id });
            arguments.push(Value::Str { value: name.to_owned() });
            arguments.push(Value::Bytes { value: params });
            proof {
                assert(values_data(arguments@) =~= seq![
                    ValueData::Long(id),
                    ValueData::Str(name@),
                    ValueData::Bytes(params@),
                ]);
            }
            let ghost before = self.messages@;
            self.messages.push(Message::ui(game_ui_id, "add-task", arguments));
            proof {
                assert(message_views(self.messages@) =~= message_views(before).push(
                    add_task_message(game_ui_id, id, name@, params@),
                ));
            }
        }
        Ok(())
    }

    /// Removes the tasks with the id `id`. Where one was removed and the
    /// player is located, the game is told.
    pub fn remove_task(&mut self, id: i64)
        requires
            old(self).wf(),
        ensures
            final(self).wf(),
            final(self).world == old(self).world,
            final(self).player == old(self).player,
            final(self).last_update == old(self).last_update,
            final(self).task_id_counter == old(self).task_id_counter,
            final(self).id == old(self).id,
            final(self).task_configs == old(self).task_configs,
            final(self).tasks@ == tasks_without(old(self).tasks@, id, old(self).tasks.len() as int),
            message_views(final(self).messages@)
                == if final(self).tasks.len() < old(self).tasks.len()
                && old(self).world.locates(&old(self).player) {
                message_views(old(self).messages@).push(
                    remove_task_message(old(self).player@.game_ui_id.unwrap(), id),
                )
            } else {
                message_views(old(self).messages@)
            },
    {
        let ghost before = self.tasks@;
        let mut removed = false;
        let mut i: usize = 0;
        let ghost mut j: int = 0;
        proof {
            assert(self.tasks@.take(0) =~= tasks_without(before, id, 0));
            assert(self.tasks@.skip(0) =~= before.skip(0));
        }
        while i < self.tasks.len()
            invariant
                self.wf(),
                self.world == old(self).world,
                self.player == old(self).player,
                self.messages == old(self).messages,
                self.last_update == old(self).last_update,
                self.task_id_counter == old(self).task_id_counter,
                self.id == old(self).id,
                self.task_configs == old(self).task_configs,
                before == old(self).tasks@,
                i <= self.tasks.len(),
                0 <= j <= before.len(),
                self.tasks.len() - i == before.len() - j,
                self.tasks@.take(i as int) == tasks_without(before, id, j),
                self.tasks@.skip(i as int) == before.skip(j),
                i <= j,
                removed == (i < j),
            decreases self.tasks.len() - i,
        {
            let ghost current = self.tasks@;
            proof {
                assert(current.skip(i as int)[0] == before.skip(j)[0]);
            }
            if self.tasks[i].id == id {
                self.tasks.remove(i);
                removed = true;
                proof {
                    assert(self.tasks@.take(i as int) =~= current.take(i as int));
                    assert(self.tasks@.skip(i as int) =~= current.skip(i as int).skip(1));
                    assert(before.skip(j).skip(1) =~= before.skip(j + 1));
                    j = j + 1;
                }
            } else {
                proof {
                    assert(current.take(i + 1) =~= current.take(i as int).push(current[i as int]));
                    assert(current.skip(i as int).skip(1) =~= current.skip(i + 1));
                    assert(before.skip(j).skip(1) =~= before.skip(j + 1));
                    j = j + 1;
                }
                i += 1;
            }
        }
        proof {
            assert(self.tasks@.take(self.tasks.len() as int) =~= self.tasks@);
        }
        if removed {
            if let Some(world) = self.world.for_player(&self.player) {
                let ghost before_messages = self.messages@;
                self.messages.push(make_remove_task_message(world.game_ui_id, id));
                proof {
                    assert(message_views(self.messages@) =~= message_views(before_messages).push(
                        remove_task_message(world.game_ui_id, id),
                    ));
                }
            }
        }
    }

    /// Removes all tasks. Where the player is located, the game is told
    /// of each.
    pub fn clear_tasks(&mut self)
        requires
            old(self).wf(),
        ensures
            final(self).wf(),
            final(self).world == old(self).world,
            final(self).player == old(self).player,
            final(self).last_update == old(self).last_update,
            final(self).task_id_counter == old(self).task_id_counter,
            final(self).tasks@ == Seq::<TaskWithParams>::empty(),
            message_views(final(self).messages@) == if old(self).world.locates(&old(self).player) {
                message_views(old(self).messages@) + remove_task_messages(
                    old(self).player@.game_ui_id.unwrap(),
                    old(self).tasks@,
                    old(self).tasks.len() as int,
                )
            } else {
                message_views(old(self).messages@)
            },
    {
        if let Some(world) = self.world.for_player(&self.player) {
            let game_ui_id = world.game_ui_id;
            let mut i: usize = 0;
            proof {
                assert(message_views(self.messages@) =~= message_views(old(self).messages@)
                    + remove_task_messages(game_ui_id, self.tasks@, 0));
            }
            while i < self.tasks.len()
                invariant
                    i <= self.tasks.len(),
                    self.tasks@ == old(self).tasks@,
                    self.world == old(self).world,
                    self.player == old(self).player,
                    self.last_update == old(self).last_update,
                    self.task_id_counter == old(self).task_id_counter,
                    message_views(self.messages@) == message_views(old(self).messages@)
                        + remove_task_messages(game_ui_id, self.tasks@, i as int),
                decreases self.tasks.len() - i,
            {
                let ghost before = self.messages@;
                self.messages.push(make_remove_task_message(game_ui_id, self.tasks[i].id));
                proof {
                    assert(message_views(self.messages@) =~= message_views(before).push(
                        remove_task_message(game_ui_id, self.tasks[i as int].id),
                    ));
                    assert(message_views(self.messages@) =~= message_views(old(self).messages@)
                        + remove_task_messages(game_ui_id, self.tasks@, i + 1));
                }
                i += 1;
            }
        }
        self.tasks = Vec::new();
    }

    /// Takes the oldest of the messages that wait to be sent.
    pub fn get_existing_message(&mut self) -> (result: Option<Message>)
        ensures
            final(self).world == old(self).world,
            final(self).player == old(self).player,
            final(self).tasks == old(self).tasks,
            final(self).last_update == old(self).last_update,
            final(self).id == old(self).id,
            final(self).task_configs == old(self).task_configs,
            final(self).task_id_counter == old(self).task_id_counter,
            result.is_none() == (old(self).messages.len() == 0),
            result.is_none() ==> final(self).messages@ == old(self).messages@,
            result.is_some() ==> result.unwrap() == old(self).messages[0] && final(self).messages@
                == old(self).messages@.drop_first(),
    {
        if self.messages.len() == 0 {
            None
        } else {
            let message = self.messages.remove(0);
            proof {
                assert(self.messages@ =~= old(self).messages@.drop_first());
            }
            Some(message)
        }
    }

    /// The view of the world from where the player stands, if the player
    /// is located.
    pub fn get_player_world(&self) -> (result: Option<PlayerWorld<'_, D>>)
        requires
            self.wf(),
        ensures
            result.is_some() == self.world.locates(&self.player),
            result.is_some() ==> self.world.shows(&self.player, result.unwrap()),
    {
        self.world.for_player(&self.player)
    }
}

/// Whether `after` are the tasks once a task of the kind named `name`,
/// made from `params`, was added under the id `id`: the new task comes
/// last; where no such task can be made, the tasks are as they were.
pub open spec fn task_added(
    tasks: Seq<TaskWithParams>,
    id: i64,
    name: Seq<char>,
    params: Seq<u8>,
    character: Option<NewCharacterParams>,
    configs: &TaskConfigs,
    after: Seq<TaskWithParams>,
) -> bool {
    if can_make(name, character) {
        &&& after.len() == tasks.len() + 1
        &&& after.drop_last() == tasks
        &&& after.last().id == id
        &&& after.last().name@ == name
        &&& after.last().params@ == params
        &&& made(name, character, configs, after.last().value)
    } else {
        after == tasks
    }
}

impl<D: MapDb> Session<D> {
    /// Whether `after` holds the tasks of this session once each was told
    /// of `event`: by the world as it stands now, where the player is
    /// located; else the tasks are told nothing.
    pub open spec fn tasks_told(&self, tasks: Seq<TaskWithParams>, event: Event,
        after: Seq<TaskWithParams>) -> bool {
        if self.world.locates(&self.player) {
            &&& after.len() == tasks.len()
            &&& forall|i: int|
                0 <= i < tasks.len() ==> {
                    &&& (#[trigger] after[i]).id == tasks[i].id
                    &&& after[i].name == tasks[i].name
                    &&& after[i].params == tasks[i].params
                    &&& tasks[i].value.told(
                        self.player@.map_view_id.unwrap(),
                        event,
                        &after[i].value,
                    )
                }
        } else {
            after == tasks
        }
    }

    fn tell_tasks(&mut self, update: &Update)
        requires
            old(self).wf(),
        ensures
            final(self).world == old(self).world,
            final(self).player == old(self).player,
            final(self).messages == old(self).messages,
            final(self).last_update == old(self).last_update,
            final(self).task_id_counter == old(self).task_id_counter,
            final(self).id == old(self).id,
            final(self).task_configs == old(self).task_configs,
            old(self).tasks_told(old(self).tasks@, update.event, final(self).tasks@),
    {
        if let Some(world) = self.world.for_player(&self.player) {
            let mut i: usize = 0;
            while i < self.tasks.len()
                invariant
                    i <= self.tasks.len(),
                    world.wf(),
                    self.world == old(self).world,
                    self.player == old(self).player,
                    self.messages == old(self).messages,
                    self.last_update == old(self).last_update,
                    self.task_id_counter == old(self).task_id_counter,
                    self.id == old(self).id,
                    self.task_configs == old(self).task_configs,
                    Some(world.map_view_id) == old(self).player@.map_view_id,
                    self.tasks.len() == old(self).tasks.len(),
                    forall|k: int|
                        0 <= k < i ==> {
                            &&& (#[trigger] self.tasks[k]).id == old(self).tasks[k].id
                            &&& self.tasks[k].name == old(self).tasks[k].name
                            &&& self.tasks[k].params == old(self).tasks[k].params
                            &&& old(self).tasks[k].value.told(
                                world.map_view_id,
                                update.event,
                                &self.tasks[k].value,
                            )
                        },
                    forall|k: int| i <= k < self.tasks.len() ==> self.tasks[k] == old(self).tasks[k],
                decreases self.tasks.len() - i,
            {
                self.tasks[i].value.update(&world, update);
                i += 1;
            }
        }
    }

    /// Whether `after` is the session once it took in `update`, seen at
    /// the time `now`, and `changed` says whether player or world changed
    /// by it. An update whose number is not greater than that of the last
    /// one changes nothing. Else a task is added or removed where the event
    /// says so; then every task is told of the event by the world as it was
    /// before the event; then the player takes the event in, and last the
    /// world.
    pub open spec fn taken(
        &self,
        update: Update,
        character: Option<NewCharacterParams>,
        now: u64,
        after: &Self,
        changed: bool,
    ) -> bool {
        &&& after.wf()
        &&& after.id == self.id
        &&& update.number <= self.last_update ==> {
            &&& !changed
            &&& after.last_update == self.last_update
            &&& after.world == self.world
            &&& after.player == self.player
            &&& after.tasks == self.tasks
            &&& after.messages == self.messages
            &&& after.task_id_counter == self.task_id_counter
        }
        &&& update.number > self.last_update ==> {
            &&& after.last_update == update.number
            &&& after.player@ == self.player@.after(
                self.world.objects,
                update.event,
                now,
            )
            &&& self.world.stepped(
                update.event,
                &after.world,
                self.world.changed_by(update.event),
            )
            &&& changed
                == (self.player@.changes(update.event)
                || self.world.changed_by(update.event))
            &&& match update.event {
                Event::TaskAdd { name, params } => {
                    let added = !(task_named(name@) is Unknown || (task_named(name@)
                        is NewCharacter && character.is_none()));
                    &&& after.task_id_counter == next_id(self.task_id_counter)
                    &&& after.tasks.len() == self.tasks.len() + if added {
                        1int
                    } else {
                        0int
                    }
                    &&& added ==> after.tasks@.last().id == after.task_id_counter
                        && after.tasks@.last().name@ == name@
                    &&& exists|listed: Seq<TaskWithParams>| #[trigger]
                        task_added(
                            self.tasks@,
                            next_id(self.task_id_counter),
                            name@,
                            params@,
                            character,
                            &self.task_configs,
                            listed,
                        ) && self.tasks_told(listed, update.event, after.tasks@)
                    &&& message_views(after.messages@) == if added
                        && self.player@.game_ui_id.is_some() {
                        message_views(self.messages@).push(
                            add_task_message(
                                self.player@.game_ui_id.unwrap(),
                                after.task_id_counter,
                                name@,
                                params@,
                            ),
                        )
                    } else {
                        message_views(self.messages@)
                    }
                },
                Event::TaskRemove { id } => {
                    let kept = tasks_without(self.tasks@, id, self.tasks.len() as int);
                    &&& after.task_id_counter == self.task_id_counter
                    &&& self.tasks_told(kept, update.event, after.tasks@)
                    &&& message_views(after.messages@)
                        == if kept.len() < self.tasks.len()
                        && self.world.locates(&self.player) {
                        message_views(self.messages@).push(
                            remove_task_message(self.player@.game_ui_id.unwrap(), id),
                        )
                    } else {
                        message_views(self.messages@)
                    }
                },
                _ => {
                    &&& after.task_id_counter == self.task_id_counter
                    &&& after.messages == self.messages
                    &&& self.tasks_told(self.tasks@, update.event, after.tasks@)
                },
            }
        }
    }

    /// Takes an update in, seen at the time `now` in nanoseconds; says
    /// whether it changed player or world. For an event that adds a new
    /// character, `character` is the name read from its parameters.
    ///
    /// An update whose number is not greater than that of the last one is
    /// dropped. Else a task is added or removed where the event says so;
    /// then every task is told of the event, then the player, and last the
    /// world: tasks and player see the world as it was before the event.
    pub fn update(&mut self, update: Update, character: Option<NewCharacterParams>, now: u64) -> (result:
        bool)
        requires
            old(self).wf(),
        ensures
            old(self).taken(update, character, now, final(self), result),
    {
        if update.number <= self.last_update {
            return false;
        }
        self.last_update = update.number;
        match &update.event {
            Event::TaskAdd { name, params } => {
                let _ = self.add_task(name.as_str(), params.clone(), character);
                proof {
                    assert(task_added(
                        old(self).tasks@,
                        next_id(old(self).task_id_counter),
                        name@,
                        params@,
                        character,
                        &old(self).task_configs,
                        self.tasks@,
                    ));
                }
            },
            Event::TaskRemove { id } => {
                self.remove_task(*id);
            },
            _ => {},
        }
        self.tell_tasks(&update);
        let mut updated = self.player.update(&self.world.objects, &update, now);
        if self.world.update(update) {
            updated = true;
        }
        updated
    }

    /// Whether `answers` are what the first tasks said when they were
    /// asked in `view`, the world as the player sees it, at the time `now`,
    /// one after the other, and `after` is the session from then on: each
    /// task that was asked is as its answer leaves it and the others are as
    /// they were; only the last answer may be a message that does not say
    /// that a task is done, and it is one where tasks were left unasked.
    pub open spec fn polled<G: Geometry>(
        &self,
        after: &Self,
        view: PlayerWorld<'_, D>,
        geometry: &G,
        now: u64,
        answers: Seq<Option<MessageData>>,
    ) -> bool {
        &&& self.world.shows(&self.player, view)
        &&& answers.len() <= self.tasks.len()
        &&& after.tasks.len() == self.tasks.len()
        &&& forall|i: int|
            0 <= i < answers.len() ==> (#[trigger] self.tasks[i]).value.asked(
                &view,
                geometry,
                now,
                &after.tasks[i].value,
                answers[i],
            )
        &&& forall|i: int|
            answers.len() <= i < self.tasks.len() ==> #[trigger] after.tasks[i] == self.tasks[i]
        &&& forall|i: int| 0 <= i < answers.len() - 1 ==> !is_order(#[trigger] answers[i])
        &&& answers.len() < self.tasks.len() ==> answers.len() > 0 && is_order(answers.last())
    }

    /// Asks the tasks, in order, for the next message: the message of the
    /// first task that has one which does not say that the task is done;
    /// else the message of the last task that is done; nothing where the
    /// player is not located or no task has a message.
    pub fn get_next_message<G: Geometry>(&mut self, context: &TaskContext<'_, G>) -> (result: Option<
        Message,
    >)
        requires
            old(self).wf(),
        ensures
            final(self).wf(),
            final(self).world == old(self).world,
            final(self).player == old(self).player,
            final(self).messages == old(self).messages,
            final(self).last_update == old(self).last_update,
            final(self).id == old(self).id,
            final(self).task_configs == old(self).task_configs,
            final(self).task_id_counter == old(self).task_id_counter,
            final(self).tasks.len() == old(self).tasks.len(),
            forall|i: int|
                0 <= i < old(self).tasks.len() ==> (#[trigger] final(self).tasks[i]).id
                    == old(self).tasks[i].id && final(self).tasks[i].name == old(self).tasks[i].name
                    && final(self).tasks[i].params == old(self).tasks[i].params,
            !old(self).world.locates(&old(self).player) ==> result.is_none() && final(self).tasks
                == old(self).tasks,
            old(self).tasks.len() == 0 ==> result.is_none(),
            old(self).world.locates(&old(self).player) ==> exists|
                view: PlayerWorld<'_, D>,
                answers: Seq<Option<MessageData>>,
            | #[trigger]
                old(self).polled(final(self), view, context.geometry, context.now, answers)
                    && message_view(result)
                    == last_said(answers),
    {
        let polled = self.poll_tasks(context);
        polled.message
    }

    /// Asks the tasks, in order, until one has a message that does not say
    /// that the task is done; says how many were asked.
    pub fn poll_tasks<G: Geometry>(&mut self, context: &TaskContext<'_, G>) -> (result: Polled)
        requires
            old(self).wf(),
        ensures
            final(self).wf(),
            final(self).world == old(self).world,
            final(self).player == old(self).player,
            final(self).messages == old(self).messages,
            final(self).last_update == old(self).last_update,
            final(self).id == old(self).id,
            final(self).task_configs == old(self).task_configs,
            final(self).task_id_counter == old(self).task_id_counter,
            final(self).tasks.len() == old(self).tasks.len(),
            result.asked <= old(self).tasks.len(),
            forall|i: int|
                0 <= i < old(self).tasks.len() ==> (#[trigger] final(self).tasks[i]).id
                    == old(self).tasks[i].id && final(self).tasks[i].name == old(self).tasks[i].name
                    && final(self).tasks[i].params == old(self).tasks[i].params,
            forall|i: int|
                result.asked <= i < old(self).tasks.len() ==> #[trigger] final(self).tasks[i]
                    == old(self).tasks[i],
            !old(self).world.locates(&old(self).player) ==> result.asked == 0
                && result.message.is_none() && final(self).tasks == old(self).tasks,
            result.asked == 0 ==> result.message.is_none(),
            result.message.is_some() && !(result.message.unwrap()@ is Done) ==> result.asked > 0,
            result.message.is_none() || result.message.unwrap()@ is Done
                ==> old(self).world.locates(&old(self).player) ==> result.asked
                == old(self).tasks.len(),
            old(self).world.locates(&old(self).player) ==> exists|
                view: PlayerWorld<'_, D>,
                answers: Seq<Option<MessageData>>,
            | #[trigger]
                old(self).polled(final(self), view, context.geometry, context.now, answers)
                    && answers.len()
                    == result.asked && message_view(result.message) == last_said(answers),
    {
        let mut message: Option<Message> = None;
        let mut asked: usize = 0;
        if let Some(world) = self.world.for_player(&self.player) {
            let mut stop = false;
            let ghost mut answers: Seq<Option<MessageData>> = Seq::empty();
            while asked < self.tasks.len() && !stop
                invariant
                    old(self).world.shows(&old(self).player, world),
                    answers.len() == asked,
                    forall|i: int|
                        0 <= i < asked ==> (#[trigger] old(self).tasks[i]).value.asked(
                            &world,
                            context.geometry,
                            context.now,
                            &self.tasks[i].value,
                            answers[i],
                        ),
                    forall|i: int| 0 <= i < asked - 1 ==> !is_order(#[trigger] answers[i]),
                    asked > 0 ==> stop == is_order(answers.last()),
                    message_view(message) == last_said(answers),
                    asked <= self.tasks.len(),
                    world.wf(),
                    self.wf(),
                    self.world == old(self).world,
                    self.player == old(self).player,
                    self.messages == old(self).messages,
                    self.id == old(self).id,
                    self.task_configs == old(self).task_configs,
                    self.last_update == old(self).last_update,
                    self.task_id_counter == old(self).task_id_counter,
                    self.tasks.len() == old(self).tasks.len(),
                    !stop ==> message.is_none() || message.unwrap()@ is Done,
                    stop ==> message.is_some() && !(message.unwrap()@ is Done) && asked > 0,
                    asked == 0 ==> message.is_none(),
                    forall|i: int|
                        0 <= i < old(self).tasks.len() ==> (#[trigger] self.tasks[i]).id
                            == old(self).tasks[i].id && self.tasks[i].name
                            == old(self).tasks[i].name
                            && self.tasks[i].params == old(self).tasks[i].params,
                    forall|i: int|
                        asked <= i < old(self).tasks.len() ==> #[trigger] self.tasks[i]
                            == old(self).tasks[i],
                decreases self.tasks.len() - asked + if stop { 0int } else { 1int },
            {
                let ghost before = self.tasks@;
                let next = self.tasks[asked].value.get_next_message(&world, context);
                proof {
                    let said = message_view(next);
                    assert(answers.push(said).drop_last() =~= answers);
                    answers = answers.push(said);
                    assert forall|i: int| 0 <= i < asked + 1 implies (#[trigger] old(self).tasks[i]).value.asked(
                        &world,
                        context.geometry,
                        context.now,
                        &self.tasks[i].value,
                        answers[i],
                    ) by {
                        if i < asked {
                            assert(self.tasks[i] == before[i]);
                        }
                    }
                }
                asked += 1;
                if let Some(found) = next {
                    let done = found.is_done();
                    message = Some(found);
                    if !done {
                        stop = true;
                    }
                }
            }
            proof {
                assert(old(self).polled(self, world, context.geometry, context.now, answers));
            }
        }
        Polled { message, asked }
    }
}

/// Whether an answer is a message that does not say that the task is
/// done.
pub open spec fn is_order(answer: Option<MessageData>) -> bool {
    match answer {
        Some(data) => !(data is Done),
        None => false,
    }
}

/// The last message among the answers, if there is one.
pub open spec fn last_said(answers: Seq<Option<MessageData>>) -> Option<MessageData>
    decreases answers.len(),
{
    if answers.len() == 0 {
        None
    } else if answers.last().is_some() {
        answers.last()
    } else {
        last_said(answers.drop_last())
    }
}

/// What asking the tasks came to: the message to send, and how many tasks
/// were asked.
pub struct Polled {
    pub message: Option<Message>,
    pub asked: usize,
}

/// A session as a snapshot.
#[derive(Debug, Clone, PartialEq)]
pub struct SessionData {
    pub id: i64,
    pub last_update: i64,
    pub world: WorldData,
    pub player: PlayerData,
    pub task_id_counter: i64,
    pub tasks: Vec<TaskParams>,
}

/// Whether a task of the kind named `name` can be made; for a new
/// character, `character` is the name it is to be given.
pub open spec fn can_make(name: Seq<char>, character: Option<NewCharacterParams>) -> bool {
    !(task_named(name) is Unknown || (task_named(name) is NewCharacter && character.is_none()))
}

/// The name for the character of the task at the index `i`, where the
/// list holds one.
pub open spec fn character_at(characters: Seq<Option<NewCharacterParams>>, i: int) -> Option<
    NewCharacterParams,
> {
    if 0 <= i < characters.len() {
        characters[i]
    } else {
        None
    }
}

impl<D: MapDb> Session<D> {
    /// The session as a snapshot.
    pub fn as_session_data(&self) -> (result: SessionData)
        requires
            self.wf(),
        ensures
            result.id == self.id,
            result.last_update == self.last_update,
            result.task_id_counter == self.task_id_counter,
            self.world.snapshot(result.world),
            self.player.snapshot(result.player),
            result.tasks.len() == self.tasks.len(),
            forall|i: int|
                0 <= i < result.tasks.len() ==> (#[trigger] result.tasks[i]).id == self.tasks[i].id
                    && result.tasks[i].name@ == self.tasks[i].name@ && result.tasks[i].params@
                    == self.tasks[i].params@,
    {
        let mut tasks: Vec<TaskParams> = Vec::new();
        let mut i: usize = 0;
        while i < self.tasks.len()
            invariant
                i <= self.tasks.len(),
                tasks.len() == i,
                forall|k: int|
                    0 <= k < i ==> (#[trigger] tasks[k]).id == self.tasks[k].id && tasks[k].name@
                        == self.tasks[k].name@ && tasks[k].params@ == self.tasks[k].params@,
            decreases self.tasks.len() - i,
        {
            tasks.push(
                TaskParams {
                    id: self.tasks[i].id,
                    name: self.tasks[i].name.clone(),
                    params: self.tasks[i].params.clone(),
                },
            );
            i += 1;
        }
        SessionData {
            id: self.id,
            last_update: self.last_update,
            world: self.world.as_world_data(),
            player: self.player.as_player_data(),
            task_id_counter: self.task_id_counter,
            tasks,
        }
    }

    /// The session of a snapshot. Its tasks are made anew by their names;
    /// `characters` holds, for each task that is a new character, the name
    /// read from its parameters, at the index of the task. Each task is let
    /// find its bearings in the world of the snapshot. A task that cannot
    /// be made fails the whole.
    pub fn from_session_data(
        session_data: SessionData,
        map_db: D,
        config: SessionConfig,
        characters: Vec<Option<NewCharacterParams>>,
    ) -> (result: Result<Self, String>)
        ensures
            (result is Ok) == (forall|i: int|
                0 <= i < session_data.tasks.len() ==> can_make(
                    (#[trigger] session_data.tasks[i]).name@,
                    character_at(characters@, i),
                )),
            result is Ok ==> {
                let session = result->Ok_0;
                &&& session.wf()
                &&& session.id == session_data.id
                &&& session.last_update == 0
                &&& session.task_id_counter == session_data.task_id_counter
                &&& session.messages@ == Seq::<Message>::empty()
                &&& World::restored(session_data.world, config.world, session.world)
                &&& Player::restored(session_data.player, config.player, session.player)
                &&& session.tasks.len() == session_data.tasks.len()
                &&& forall|i: int|
                    0 <= i < session.tasks.len() ==> (#[trigger] session.tasks[i]).id
                        == session_data.tasks[i].id && session.tasks[i].name@
                        == session_data.tasks[i].name@ && session.tasks[i].params@
                        == session_data.tasks[i].params@
                &&& forall|i: int|
                    0 <= i < session.tasks.len() ==> remade(
                        session_data.tasks[i].name@,
                        character_at(characters@, i),
                        &config.tasks,
                        &session.world,
                        &session.player,
                        (#[trigger] session.tasks[i]).value,
                    )
            },
    {
        let ghost given = session_data;
        let SessionData { id, last_update, world, player, task_id_counter, tasks: listed } =
            session_data;
        let player = Player::from_player_data(player, config.player);
        let world = World::from_world_data(world, config.world, map_db);
        let mut tasks: Vec<TaskWithParams> = Vec::new();
        let ghost characters_given = characters@;
        let mut names = characters;
        let ghost all_characters = names@;
        let mut i: usize = 0;
        while i < listed.len()
            invariant
                i <= listed.len(),
                listed == given.tasks,
                given == session_data,
                characters_given == characters@,
                world.wf(),
                player.wf(),
                tasks.len() == i,
                names.len() == all_characters.len(),
                all_characters == characters_given,
                forall|k: int|
                    i <= k < names.len() ==> #[trigger] names[k] == all_characters[k],
                forall|k: int|
                    0 <= k < i ==> can_make(
                        (#[trigger] listed[k]).name@,
                        character_at(all_characters, k),
                    ),
                forall|k: int|
                    0 <= k < i ==> (#[trigger] tasks[k]).id == listed[k].id
                        && tasks[k].name@ == listed[k].name@ && tasks[k].params@
                        == listed[k].params@,
                forall|k: int|
                    0 <= k < i ==> remade(
                        listed[k].name@,
                        character_at(all_characters, k),
                        &config.tasks,
                        &world,
                        &player,
                        (#[trigger] tasks[k]).value,
                    ),
            decreases listed.len() - i,
        {
            let task = &listed[i];
            let mut character: Option<NewCharacterParams> = None;
            if i < names.len() {
                core::mem::swap(&mut character, &mut names[i]);
            }
            let ghost told = character;
            proof {
                assert(told == character_at(all_characters, i as int));
            }
            let mut value = match make_task(task.name.as_str(), character, &config.tasks) {
                Ok(value) => value,
                Err(error) => {
                    proof {
                        assert(all_characters == characters_given);
                        assert(given.tasks[i as int] == listed[i as int]);
                        assert(!can_make(
                            listed[i as int].name@,
                            character_at(characters_given, i as int),
                        ));
                    }
                    return Err(error);
                },
            };
            let ghost new_task = value;
            if let Some(player_world) = world.for_player(&player) {
                value.restore(&player_world);
                proof {
                    assert(world.shows(&player, player_world) && new_task.settled(
                        &player_world,
                        &value,
                    ));
                }
            }
            proof {
                assert(made(listed[i as int].name@, told, &config.tasks, new_task));
                assert(remade(
                    listed[i as int].name@,
                    character_at(all_characters, i as int),
                    &config.tasks,
                    &world,
                    &player,
                    value,
                ));
            }
            tasks.push(
                TaskWithParams {
                    id: task.id,
                    name: task.name.clone(),
                    params: task.params.clone(),
                    value,
                },
            );
            i += 1;
        }
        Ok(
            Session {
                id,
                last_update: 0,
                world,
                player,
                task_id_counter,
                tasks,
                messages: Vec::new(),
                task_configs: config.tasks,
            },
        )
    }
}

} // verus!
