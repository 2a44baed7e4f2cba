//! One turn of a session: an update is taken in, and what the session has
//! to say is put in line to be sent.

use vstd::prelude::*;
use crate::geometry::Geometry;
use crate::map_db::MapDb;
use crate::new_character::NewCharacterParams;
use crate::protocol::{message_view, Event, Message, MessageData, Update};
use crate::session::{last_said, message_views, Session};
use crate::task::TaskContext;
use crate::world::PlayerWorld;

verus! {

/// Where the updates of the sessions are logged, and whether they are.
#[derive(Debug, Clone)]
pub struct ProcessConfig {
    pub sessions_path: String,
    pub write_updates_log: bool,
}

/// What is done with an update that comes in for a session.
#[derive(Debug, Clone, Copy, PartialEq, Eq, Structural)]
pub enum Route {
    /// The session is set up anew from the snapshot that the update holds.
    Restore,
    /// The search that runs in the session is told to stop.
    Cancel,
    /// The update is put in line for the session.
    Enqueue,
    /// A session is made, and the update is put in line for it.
    Create,
    /// A session is made, and nothing is put in line for it.
    Open,
}

/// What is done with an update: a snapshot restores, a cancel cancels;
/// anything else is put in line, for a new session where none is known.
/// An update that holds no snapshot where one belongs opens a new session
/// and is not put in line for it.
pub open spec fn routed(event: Event, known: bool) -> Route {
    match event {
        Event::SessionData { value } => if value.is_some() {
            Route::Restore
        } else if known {
            Route::Enqueue
        } else {
            Route::Open
        },
        Event::Cancel => Route::Cancel,
        _ => if known {
            Route::Enqueue
        } else {
            Route::Create
        },
    }
}

/// Says what is done with `event`, for a session that is `known` or not.
pub fn route_update(event: &Event, known: bool) -> (result: Route)
    ensures
        result == routed(*event, known),
{
    match event {
        Event::SessionData { value } => {
            if value.is_some() {
                Route::Restore
            } else if known {
                Route::Enqueue
            } else {
                Route::Open
            }
        },
        Event::Cancel => Route::Cancel,
        _ => {
            if known {
                Route::Enqueue
            } else {
                Route::Create
            }
        },
    }
}

/// The messages that stand in line when a session begins: the game is
/// asked for the data of the session.
pub fn opening_messages() -> (result: Vec<Message>)
    ensures
        message_views(result@) == seq![MessageData::GetSessionData],
{
    let mut messages: Vec<Message> = Vec::new();
    messages.push(Message::GetSessionData);
    proof {
        assert(message_views(messages@) =~= seq![MessageData::GetSessionData]);
    }
    messages
}

/// Whether what was put by at `cached_at` is still good at `now`, both in
/// nanoseconds: less than `ttl` has gone by. Without a `ttl` nothing is.
pub open spec fn fresh(cached_at: u64, now: u64, ttl: Option<u64>) -> bool {
    match ttl {
        Some(ttl) => (if now >= cached_at {
            now - cached_at
        } else {
            0
        }) < ttl,
        None => false,
    }
}

/// Whether what was put by at `cached_at` is still good at `now`.
pub fn is_fresh(cached_at: u64, now: u64, ttl: Option<u64>) -> (result: bool)
    ensures
        result == fresh(cached_at, now, ttl),
{
    match ttl {
        Some(ttl) => {
            let age: u64 = if now >= cached_at { now - cached_at } else { 0 };
            age < ttl
        },
        None => false,
    }
}

/// The line of messages with `message` at its end, unless `message`
/// stands there already.
pub open spec fn pushed_unless_repeated(queue: Seq<MessageData>, message: MessageData) -> Seq<
    MessageData,
> {
    if queue.len() == 0 || queue.last() != message {
        queue.push(message)
    } else {
        queue
    }
}

/// The line of messages after the first `n` of the messages `pending` were
/// put at its end, each unless it stood there already.
pub open spec fn drained(queue: Seq<MessageData>, pending: Seq<MessageData>, n: int) -> Seq<
    MessageData,
>
    decreases n,
{
    if n <= 0 {
        queue
    } else {
        pushed_unless_repeated(drained(queue, pending, n - 1), pending[n - 1])
    }
}

/// The line of messages after a turn: first the snapshot that was asked
/// for, then the messages that waited in the session, then the message of
/// the tasks; none is put behind its like.
pub open spec fn emitted(
    queue: Seq<MessageData>,
    snapshot: Option<Seq<char>>,
    pending: Seq<MessageData>,
    task_message: Option<MessageData>,
) -> Seq<MessageData> {
    let with_snapshot = match snapshot {
        Some(value) => queue.push(MessageData::SessionData { value }),
        None => queue,
    };
    let with_pending = drained(with_snapshot, pending, pending.len() as int);
    match task_message {
        Some(message) => pushed_unless_repeated(with_pending, message),
        None => with_pending,
    }
}

/// The snapshot that is put in line: the one given, where the event asks
/// for the data of the session.
pub open spec fn asked_snapshot(event: Event, snapshot: Option<String>) -> Option<Seq<char>> {
    if event is GetSessionData && snapshot.is_some() {
        Some(snapshot.unwrap()@)
    } else {
        None
    }
}

/// Puts `message` at the end of the line unless it stands there already.
pub fn push_unless_repeated(queue: &mut Vec<Message>, message: Message)
    ensures
        message_views(final(queue)@) == pushed_unless_repeated(message_views(old(queue)@), message@),
{
    let repeated = if queue.len() == 0 {
        false
    } else {
        proof {
            assert(message_views(queue@).last() == queue@[queue.len() - 1]@);
        }
        queue[queue.len() - 1].equals(&message)
    };
    if !repeated {
        let ghost data = message@;
        queue.push(message);
        proof {
            assert(message_views(queue@) =~= message_views(old(queue)@).push(data));
        }
    }
}

/// Whether `after` is the session and `line` the line of messages once
/// the session, with `queue` in line and `snapshot` asked for, said what it
/// has to say at the time `now`: the messages that waited in it have left
/// it for the line, and its tasks were asked, where the player is located,
/// and their message put in line; nothing else changed.
pub open spec fn said<D: MapDb, G: Geometry>(
    session: &Session<D>,
    queue: Seq<MessageData>,
    snapshot: Option<Seq<char>>,
    geometry: &G,
    now: u64,
    after: &Session<D>,
    line: Seq<MessageData>,
) -> bool {
    &&& after.wf()
    &&& after.id == session.id
    &&& after.world == session.world
    &&& after.player == session.player
    &&& after.last_update == session.last_update
    &&& after.task_id_counter == session.task_id_counter
    &&& after.tasks.len() == session.tasks.len()
    &&& after.messages@ == Seq::<Message>::empty()
    &&& if session.world.locates(&session.player) {
        exists|view: PlayerWorld<'_, D>, answers: Seq<Option<MessageData>>| #[trigger]
            session.polled(after, view, geometry, now, answers) && line == emitted(
                queue,
                snapshot,
                message_views(session.messages@),
                last_said(answers),
            )
    } else {
        after.tasks == session.tasks && line == emitted(
            queue,
            snapshot,
            message_views(session.messages@),
            None,
        )
    }
}

/// Puts what the session has to say in line: the messages that wait in
/// it, then the next message of its tasks.
pub fn emit<D: MapDb, G: Geometry>(
    session: &mut Session<D>,
    messages: &mut Vec<Message>,
    context: &TaskContext<'_, G>,
)
    requires
        old(session).wf(),
    ensures
        said(
            old(session),
            message_views(old(messages)@),
            None,
            context.geometry,
            context.now,
            final(session),
            message_views(final(messages)@),
        ),
{
    let ghost pending = message_views(session.messages@);
    let ghost queue = message_views(messages@);
    let mut taken: usize = 0;
    let ghost count = session.messages.len();
    while session.messages.len() > 0
        invariant
            session.wf(),
            session.world == old(session).world,
            session.player == old(session).player,
            session.last_update == old(session).last_update,
            session.id == old(session).id,
            session.task_id_counter == old(session).task_id_counter,
            session.tasks == old(session).tasks,
            pending == message_views(old(session).messages@),
            queue == message_views(old(messages)@),
            count == pending.len(),
            taken + session.messages.len() == count,
            message_views(session.messages@) == pending.skip(taken as int),
            message_views(messages@) == drained(queue, pending, taken as int),
        decreases session.messages.len(),
    {
        let ghost waiting = session.messages@;
        match session.get_existing_message() {
            Some(message) => {
                proof {
                    assert(message@ == message_views(waiting)[0]);
                    assert(pending.skip(taken as int)[0] == pending[taken as int]);
                    assert(session.messages@ == waiting.drop_first());
                    assert(message_views(session.messages@) =~= message_views(waiting).skip(1));
                    assert(pending.skip(taken as int).skip(1) =~= pending.skip(taken + 1));
                    assert(message_views(session.messages@) =~= pending.skip(taken + 1));
                }
                push_unless_repeated(messages, message);
                taken += 1;
            },
            None => {},
        }
    }
    let ghost drained_session = *session;
    let next = session.get_next_message(context);
    let ghost said_last = message_view(next);
    match next {
        Some(message) => {
            push_unless_repeated(messages, message);
        },
        None => {},
    }
    proof {
        assert(message_views(messages@) == emitted(queue, None, pending, said_last));
        assert(session.messages@ =~= Seq::<Message>::empty());
        if old(session).world.locates(&old(session).player) {
            let (view, answers) = choose|
                view: PlayerWorld<'_, D>,
                answers: Seq<Option<MessageData>>,
            | #[trigger]
                drained_session.polled(session, view, context.geometry, context.now, answers)
                    && said_last == last_said(answers);
            assert(old(session).polled(session, view, context.geometry, context.now, answers));
        }
    }
}

/// Takes one update through a session, seen at the time of `context`.
///
/// An update that closes the session ends it: the result is `false` and
/// nothing changes. Else the snapshot of the session is put in line where
/// the update asks for it and `snapshot` holds it; the update is taken in;
/// and what the session has to say is put in line. For an event that adds
/// a new character, `character` is the name read from its parameters.
pub fn process_update<D: MapDb, G: Geometry>(
    session: &mut Session<D>,
    messages: &mut Vec<Message>,
    update: Update,
    snapshot: Option<String>,
    character: Option<NewCharacterParams>,
    context: &TaskContext<'_, G>,
) -> (result: bool)
    requires
        old(session).wf(),
    ensures
        final(session).wf(),
        result == !(update.event is Close),
        update.event is Close ==> *final(session) == *old(session) && final(messages)@ == old(
            messages,
        )@,
        !(update.event is Close) ==> exists|updated: Session<D>, changed: bool| #[trigger]
            old(session).taken(update, character, context.now, &updated, changed) && said(
                &updated,
                message_views(old(messages)@),
                asked_snapshot(update.event, snapshot),
                context.geometry,
                context.now,
                final(session),
                message_views(final(messages)@),
            ),
{
    match &update.event {
        Event::Close => {
            return false;
        },
        Event::GetSessionData => {
            if let Some(value) = snapshot {
                let ghost before = messages@;
                let ghost text = value@;
                messages.push(Message::SessionData { value });
                proof {
                    assert(message_views(messages@) =~= message_views(before).push(
                        MessageData::SessionData { value: text },
                    ));
                }
            }
        },
        _ => {},
    }
    let ghost with_snapshot = message_views(messages@);
    let ghost given = update;
    let changed = session.update(update, character, context.now);
    let ghost updated = *session;
    emit(session, messages, context);
    proof {
        let pending = message_views(updated.messages@);
        assert forall|last: Option<MessageData>|
            emitted(with_snapshot, None, pending, last) == emitted(
                message_views(old(messages)@),
                asked_snapshot(given.event, snapshot),
                pending,
                last,
            ) by {}
        assert(old(session).taken(given, character, context.now, &updated, changed) && said(
            &updated,
            message_views(old(messages)@),
            asked_snapshot(given.event, snapshot),
            context.geometry,
            context.now,
            session,
            message_views(messages@),
        ));
    }
    true
}

} // verus!
