//! The task that closes the windows that tell of experience gained.

use vstd::prelude::*;
use crate::geometry::Geometry;
use crate::map_db::MapDb;
use crate::player::Widget;
use crate::protocol::{
    has_prefix, message_view, starts_with, str_equal, Event, Message, MessageData, Update, Value,
    ValueData,
};
use crate::task::{Task, TaskContext};
use crate::world::PlayerWorld;

verus! {

/// Closes every experience window: `exp_wnd_ids` are the windows known,
/// `closed` those that were told to close.
#[derive(Debug, Clone)]
pub struct ExpWndCloser {
    pub closed: Vec<i32>,
    pub exp_wnd_ids: Vec<i32>,
}

/// The index of the first id, from `from` on, that is not among `closed`,
/// or the number of ids where all are.
pub open spec fn first_open(ids: Seq<i32>, closed: Seq<i32>, from: int) -> int
    decreases ids.len() - from,
{
    if from < 0 || from >= ids.len() {
        ids.len() as int
    } else if !closed.contains(ids[from]) {
        from
    } else {
        first_open(ids, closed, from + 1)
    }
}

/// The first `n` ids without `id`.
pub open spec fn ids_without(ids: Seq<i32>, id: i32, n: int) -> Seq<i32>
    decreases n,
{
    if n <= 0 {
        Seq::empty()
    } else if ids[n - 1] == id {
        ids_without(ids, id, n - 1)
    } else {
        ids_without(ids, id, n - 1).push(ids[n - 1])
    }
}

/// The ids of those of the first `n` widgets that are experience windows.
pub open spec fn exp_windows(widgets: Seq<Widget>, n: int) -> Seq<i32>
    decreases n,
{
    if n <= 0 {
        Seq::empty()
    } else if has_prefix(widgets[n - 1].kind@, "ui/expwnd:"@) {
        exp_windows(widgets, n - 1).push(widgets[n - 1].id)
    } else {
        exp_windows(widgets, n - 1)
    }
}

fn is_among(ids: &Vec<i32>, id: i32) -> (result: bool)
    ensures
        result == ids@.contains(id),
{
    let mut i: usize = 0;
    while i < ids.len()
        invariant
            i <= ids.len(),
            forall|k: int| 0 <= k < i ==> ids[k] != id,
        decreases ids.len() - i,
    {
        if ids[i] == id {
            return true;
        }
        i += 1;
    }
    false
}

fn retain_others(ids: &Vec<i32>, id: i32) -> (result: Vec<i32>)
    ensures
        result@ == ids_without(ids@, id, ids.len() as int),
{
    let mut result: Vec<i32> = Vec::new();
    let mut i: usize = 0;
    while i < ids.len()
        invariant
            i <= ids.len(),
            result@ == ids_without(ids@, id, i as int),
        decreases ids.len() - i,
    {
        if ids[i] != id {
            result.push(ids[i]);
        }
        i += 1;
    }
    result
}

impl ExpWndCloser {
    pub fn new() -> (result: Self)
        ensures
            result.closed@ == Seq::<i32>::empty(),
            result.exp_wnd_ids@ == Seq::<i32>::empty(),
    {
        ExpWndCloser { closed: Vec::new(), exp_wnd_ids: Vec::new() }
    }

    /// Whether a closer in the state `self` says `message` when asked and
    /// is `after` from then on: the first window that was not told yet is
    /// told to close and counted among those told; with none such,
    /// nothing is said.
    pub open spec fn answers(&self, after: &Self, message: Option<MessageData>) -> bool {
        let at = first_open(self.exp_wnd_ids@, self.closed@, 0);
        &&& after.exp_wnd_ids@ == self.exp_wnd_ids@
        &&& if at < self.exp_wnd_ids.len() {
            &&& message == Some(
                MessageData::WidgetMessage {
                    sender: self.exp_wnd_ids[at],
                    kind: "close"@,
                    arguments: Seq::empty(),
                },
            )
            &&& after.closed@ == self.closed@.push(self.exp_wnd_ids[at])
        } else {
            message.is_none() && after.closed@ == self.closed@
        }
    }

    /// Tells the first window that was not told yet to close.
    pub fn next_message(&mut self) -> (result: Option<Message>)
        ensures
            old(self).answers(final(self), message_view(result)),
    {
        let mut i: usize = 0;
        while i < self.exp_wnd_ids.len()
            invariant
                i <= self.exp_wnd_ids.len(),
                self.exp_wnd_ids@ == old(self).exp_wnd_ids@,
                self.closed@ == old(self).closed@,
                first_open(self.exp_wnd_ids@, self.closed@, i as int) == first_open(
                    self.exp_wnd_ids@,
                    self.closed@,
                    0,
                ),
            decreases self.exp_wnd_ids.len() - i,
        {
            let id = self.exp_wnd_ids[i];
            if !is_among(&self.closed, id) {
                self.closed.push(id);
                let arguments: Vec<Value> = Vec::new();
                proof {
                    assert(crate::protocol::values_data(arguments@) =~= Seq::<ValueData>::empty());
                }
                return Some(Message::widget(id, "close", arguments));
            }
            i += 1;
        }
        None
    }

    /// Whether `after` is `self` once it took note of `event`: a new
    /// experience window is known; a window that closes or is destroyed is
    /// forgotten.
    pub open spec fn noted(&self, event: Event, after: &Self) -> bool {
        match event {
            Event::NewWidget { id, kind, parent, pargs, cargs } => {
                &&& after.closed@ == self.closed@
                &&& after.exp_wnd_ids@ == if has_prefix(kind@, "ui/expwnd:"@) {
                    self.exp_wnd_ids@.push(id)
                } else {
                    self.exp_wnd_ids@
                }
            },
            Event::WidgetMessage { id, msg, args } => if msg@ == "close"@ {
                &&& after.exp_wnd_ids@ == ids_without(
                    self.exp_wnd_ids@,
                    id,
                    self.exp_wnd_ids.len() as int,
                )
                &&& after.closed@ == ids_without(self.closed@, id, self.closed.len() as int)
            } else {
                after.exp_wnd_ids@ == self.exp_wnd_ids@ && after.closed@ == self.closed@
            },
            Event::Destroy { id } => {
                &&& after.exp_wnd_ids@ == ids_without(
                    self.exp_wnd_ids@,
                    id,
                    self.exp_wnd_ids.len() as int,
                )
                &&& after.closed@ == ids_without(self.closed@, id, self.closed.len() as int)
            },
            _ => after.exp_wnd_ids@ == self.exp_wnd_ids@ && after.closed@ == self.closed@,
        }
    }

    /// Takes note of an event.
    pub fn on_event(&mut self, event: &Event)
        ensures
            old(self).noted(*event, final(self)),
    {
        match event {
            Event::NewWidget { id, kind, parent, pargs, cargs } => {
                if starts_with(kind.as_str(), "ui/expwnd:") {
                    self.exp_wnd_ids.push(*id);
                }
            },
            Event::WidgetMessage { id, msg, args } => {
                if str_equal(msg.as_str(), "close") {
                    self.exp_wnd_ids = retain_others(&self.exp_wnd_ids, *id);
                    self.closed = retain_others(&self.closed, *id);
                }
            },
            Event::Destroy { id } => {
                self.exp_wnd_ids = retain_others(&self.exp_wnd_ids, *id);
                self.closed = retain_others(&self.closed, *id);
            },
            _ => {},
        }
    }

    /// Takes the experience windows among `widgets` for known.
    pub fn take_windows(&mut self, widgets: &Vec<Widget>)
        ensures
            final(self).closed@ == old(self).closed@,
            final(self).exp_wnd_ids@ == old(self).exp_wnd_ids@ + exp_windows(
                widgets@,
                widgets.len() as int,
            ),
    {
        let mut i: usize = 0;
        proof {
            assert(self.exp_wnd_ids@ =~= old(self).exp_wnd_ids@ + exp_windows(widgets@, 0));
        }
        while i < widgets.len()
            invariant
                i <= widgets.len(),
                self.closed@ == old(self).closed@,
                self.exp_wnd_ids@ == old(self).exp_wnd_ids@ + exp_windows(widgets@, i as int),
            decreases widgets.len() - i,
        {
            if starts_with(widgets[i].kind.as_str(), "ui/expwnd:") {
                self.exp_wnd_ids.push(widgets[i].id);
            }
            proof {
                assert(self.exp_wnd_ids@ =~= old(self).exp_wnd_ids@ + exp_windows(widgets@, i + 1));
            }
            i += 1;
        }
    }
}

impl Task for ExpWndCloser {
    open spec fn wf(&self) -> bool {
        true
    }

    open spec fn told(&self, map_view_id: i32, event: Event, after: &Self) -> bool {
        self.noted(event, after)
    }

    fn name(&self) -> (result: String)
        ensures
            result@ == "ExpWndCloser"@,
    {
        "ExpWndCloser".to_owned()
    }

    fn get_next_message<D: MapDb, G: Geometry>(
        &mut self,
        world: &PlayerWorld<'_, D>,
        context: &TaskContext<'_, G>,
    ) -> (result: Option<Message>)
        ensures
            old(self).answers(final(self), message_view(result)),
    {
        self.next_message()
    }

    fn update<D: MapDb>(&mut self, world: &PlayerWorld<'_, D>, update: &Update) {
        self.on_event(&update.event);
    }

    fn restore<D: MapDb>(&mut self, world: &PlayerWorld<'_, D>)
        ensures
            final(self).closed@ == old(self).closed@,
            final(self).exp_wnd_ids@ == old(self).exp_wnd_ids@ + exp_windows(
                world.player.widgets.values@,
                world.player.widgets.values.len() as int,
            ),
    {
        self.take_windows(&world.player.widgets.values);
    }
}

} // verus!
