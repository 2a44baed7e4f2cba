//! What all tasks have in common.

use vstd::prelude::*;
use core::sync::atomic::AtomicBool;
use crate::geometry::Geometry;
use crate::map_db::MapDb;
use crate::protocol::{Event, Message, Update};
use crate::world::PlayerWorld;

verus! {

/// What a task is given when it is asked for a message: the time in
/// nanoseconds, the geometry of the world, and the flag that cancels a
/// search.
pub struct TaskContext<'a, G: Geometry> {
    pub now: u64,
    pub geometry: &'a G,
    pub cancel: &'a AtomicBool,
}

/// A task: it is told of every event and asked, tick by tick, for the next
/// message to send.
pub trait Task {
    /// Whether the task is in a state it can go on from.
    spec fn wf(&self) -> bool;

    /// The name of the task.
    fn name(&self) -> String;

    /// The next message of the task, or nothing where it has none for now.
    fn get_next_message<D: MapDb, G: Geometry>(
        &mut self,
        world: &PlayerWorld<'_, D>,
        context: &TaskContext<'_, G>,
    ) -> (result: Option<Message>)
        requires
            old(self).wf(),
            world.wf(),
        ensures
            final(self).wf(),
    ;

    /// Whether `after` is `self` once it was told of `event` in a world
    /// whose map view is the widget `map_view_id`.
    spec fn told(&self, map_view_id: i32, event: Event, after: &Self) -> bool;

    /// Tells the task of an event, with the world as it was before it.
    fn update<D: MapDb>(&mut self, world: &PlayerWorld<'_, D>, update: &Update)
        requires
            old(self).wf(),
            world.wf(),
        ensures
            final(self).wf(),
            old(self).told(world.map_view_id, update.event, final(self)),
    ;

    /// Lets the task find its bearings in a world it was not told of.
    fn restore<D: MapDb>(&mut self, world: &PlayerWorld<'_, D>)
        requires
            old(self).wf(),
            world.wf(),
        ensures
            final(self).wf(),
    ;
}

} // verus!
