//! What the sessions of the open-handle backend achieve on the model file
//! system.

use vstd::prelude::*;
use crate::action::EventView;
use crate::file::File;
use crate::model::{
    lemma_run_keeps, lemma_same_entries, lemma_smooth_run, runs, session_after, smooth_events,
    smooth_worlds, world_after, world_along, Handle, World,
};
use crate::session::SessionView;

verus! {

/// The session that `File::from_path` starts.
pub open spec fn open_session<E>(path: Seq<char>) -> SessionView<E> {
    SessionView::start(File::opening_plan(path), Seq::empty())
}

/// The session that `File::from_path_or_create` starts.
pub open spec fn open_or_create_session<E>(path: Seq<char>) -> SessionView<E> {
    SessionView::start(File::opening_plan(path), File::creating_plan(path))
}

/// The session that `File::read` starts.
pub open spec fn read_session<E>() -> SessionView<E> {
    SessionView::start(File::reading_plan(), Seq::empty())
}

/// The session that `File::write` starts.
pub open spec fn write_session<E>(data: Seq<u8>) -> SessionView<E> {
    SessionView::start(File::writing_plan(data), Seq::empty())
}

/// The backend's handle is open in `world`, as an opening session left it:
/// for reading and writing, on a file that is there.
pub open spec fn holds_file(world: World) -> bool {
    world.wf() && (world.handle matches Some(h) && h.read && h.write)
}

/// The handle of `world` is the handle of `first`, its cursor wherever.
pub open spec fn same_handle(first: World, world: World) -> bool {
    world.handle matches Some(k) && first.handle matches Some(h) && k.path == h.path && k.read
        == h.read && k.write == h.write
}

/// What holds at every moment of an opening session on `path` that began on
/// the file system `first`; `create` tells whether the session may create the
/// file.
spec fn opening<E>(
    path: Seq<char>,
    create: bool,
    first: World,
    session: SessionView<E>,
    world: World,
) -> bool {
    let fell_back = !session.existed;
    &&& if fell_back {
        &&& create
        &&& session.plan == File::creating_plan(path)
        &&& session.fallback.len() == 0
        &&& !first.files.contains_key(path)
    } else {
        &&& session.plan == File::opening_plan(path)
        &&& session.fallback == if create {
            File::creating_plan(path)
        } else {
            Seq::empty()
        }
    }
    &&& session.done <= 1
    &&& session.holding == (world.handle is Some)
    &&& world.wf()
    &&& forall|other: Seq<char>|
        other != path ==> #[trigger] world.entry(other) == first.entry(other)
    &&& !fell_back ==> world.entry(path) == first.entry(path)
    &&& session.failure is None ==> if session.done == 0 {
        world.handle is None && world.entry(path) == first.entry(path)
    } else {
        &&& world.handle == Some(Handle { path, cursor: 0, read: true, write: true })
        &&& if fell_back {
            world.entry(path) == (Some(Seq::<u8>::empty()), false)
        } else {
            first.files.contains_key(path)
        }
    }
}

proof fn lemma_opening_step<E>(
    path: Seq<char>,
    create: bool,
    first: World,
    session: SessionView<E>,
    world: World,
    event: EventView<E>,
    after: World,
)
    requires
        opening(path, create, first, session, world),
        session.pending() is Some,
        world.step(session.pending().unwrap(), event, after),
    ensures
        opening(path, create, first, session.after(event), after),
{
    assert forall|other: Seq<char>| other != path implies #[trigger] after.entry(other)
        == first.entry(other) by {
        assert(world.entry(other) == first.entry(other));
    }
}

proof fn lemma_open_invariant<E>(
    path: Seq<char>,
    create: bool,
    first: World,
    events: Seq<EventView<E>>,
    worlds: Seq<World>,
)
    requires
        first.handle is None,
        runs(
            if create {
                open_or_create_session::<E>(path)
            } else {
                open_session::<E>(path)
            },
            first,
            events,
            worlds,
        ),
    ensures
        opening(
            path,
            create,
            first,
            session_after(
                if create {
                    open_or_create_session::<E>(path)
                } else {
                    open_session::<E>(path)
                },
                events,
            ),
            world_after(first, worlds),
        ),
{
    let start = if create {
        open_or_create_session::<E>(path)
    } else {
        open_session::<E>(path)
    };
    let inv = |s: SessionView<E>, w: World| opening(path, create, first, s, w);
    assert forall|s: SessionView<E>, w: World, event: EventView<E>, after: World|
        #![trigger inv(s.after(event), after), inv(s, w)]
        inv(s, w) && s.pending() is Some && w.step(
            s.pending().unwrap(),
            event,
            after,
        ) implies inv(s.after(event), after) by {
        lemma_opening_step(path, create, first, s, w, event, after);
    }
    lemma_run_keeps(inv, start, first, events, worlds);
}

/// Opening a file changes no file, however far the session gets. It succeeds
/// only if the file is there, and then leaves the handle open on it, for
/// reading and writing, at its start. If it fails no handle is left open.
pub proof fn lemma_open<E>(
    path: Seq<char>,
    first: World,
    events: Seq<EventView<E>>,
    worlds: Seq<World>,
)
    requires
        first.handle is None,
        runs(open_session::<E>(path), first, events, worlds),
    ensures
        world_after(first, worlds).files == first.files,
        world_after(first, worlds).unsynced == first.unsynced,
        session_after(open_session::<E>(path), events).succeeded() ==> first.files.contains_key(
            path,
        ) && world_after(first, worlds).handle == Some(
            Handle { path, cursor: 0, read: true, write: true },
        ),
        session_after(open_session::<E>(path), events).failed() ==> world_after(
            first,
            worlds,
        ).handle is None,
{
    lemma_open_invariant::<E>(path, false, first, events, worlds);
    let last = world_after(first, worlds);
    lemma_same_entries(last, first);
}

/// Opening with leave to create, once it has succeeded: the session reports
/// that the file existed exactly if it did. A file that existed is as it was;
/// one that did not is there and empty. Every other file is as it was, and the
/// handle is open on the file, for reading and writing, at its start.
pub proof fn lemma_open_or_create<E>(
    path: Seq<char>,
    first: World,
    events: Seq<EventView<E>>,
    worlds: Seq<World>,
)
    requires
        first.handle is None,
        runs(open_or_create_session::<E>(path), first, events, worlds),
        session_after(open_or_create_session::<E>(path), events).succeeded(),
    ensures
        session_after(open_or_create_session::<E>(path), events).existed
            == first.files.contains_key(path),
        world_after(first, worlds).files == if first.files.contains_key(path) {
            first.files
        } else {
            first.files.insert(path, Seq::empty())
        },
        world_after(first, worlds).handle == Some(
            Handle { path, cursor: 0, read: true, write: true },
        ),
{
    lemma_open_invariant::<E>(path, true, first, events, worlds);
    let last = world_after(first, worlds);
    let expected = if first.files.contains_key(path) {
        first.files
    } else {
        first.files.insert(path, Seq::empty())
    };
    assert forall|other: Seq<char>| #[trigger]
        last.files.dom().contains(other) == expected.dom().contains(other) && (
        last.files.dom().contains(other) ==> last.files[other] == expected[other]) by {
        if other != path {
            assert(last.entry(other) == first.entry(other));
        }
    }
}

/// Opening with leave to create, however far it gets: no file but the one at
/// the path is changed, and that one is changed only if it was missing. If
/// the session fails no handle is left open.
pub proof fn lemma_open_or_create_spares_files<E>(
    path: Seq<char>,
    first: World,
    events: Seq<EventView<E>>,
    worlds: Seq<World>,
)
    requires
        first.handle is None,
        runs(open_or_create_session::<E>(path), first, events, worlds),
    ensures
        forall|other: Seq<char>|
            other != path || first.files.contains_key(path) ==> #[trigger] world_after(
                first,
                worlds,
            ).entry(other) == first.entry(other),
        session_after(open_or_create_session::<E>(path), events).failed() ==> world_after(
            first,
            worlds,
        ).handle is None,
{
    lemma_open_invariant::<E>(path, true, first, events, worlds);
}

/// What holds at every moment of a writing session that began on the file
/// system `first`.
spec fn writing<E>(data: Seq<u8>, first: World, session: SessionView<E>, world: World) -> bool {
    let path = first.handle.unwrap().path;
    &&& session.plan == File::writing_plan(data)
    &&& session.fallback.len() == 0
    &&& session.done <= 4
    &&& !session.holding
    &&& world.wf()
    &&& same_handle(first, world)
    &&& forall|other: Seq<char>|
        other != path ==> #[trigger] world.entry(other) == first.entry(other)
    &&& session.failure is None ==> {
        let cursor = world.handle.unwrap().cursor;
        if session.done == 0 {
            world.entry(path) == first.entry(path)
        } else if session.done == 1 {
            world.entry(path) == first.entry(path) && cursor == 0
        } else if session.done == 2 {
            world.files[path] == Seq::<u8>::empty() && cursor == 0
        } else if session.done == 3 {
            world.files[path] == data && cursor == data.len()
        } else {
            world.entry(path) == (Some(data), true) && cursor == data.len()
        }
    }
}

proof fn lemma_writing_step<E>(
    data: Seq<u8>,
    first: World,
    session: SessionView<E>,
    world: World,
    event: EventView<E>,
    after: World,
)
    requires
        first.handle is Some,
        writing(data, first, session, world),
        session.pending() is Some,
        world.step(session.pending().unwrap(), event, after),
    ensures
        writing(data, first, session.after(event), after),
{
    let path = first.handle.unwrap().path;
    assert forall|other: Seq<char>| other != path implies #[trigger] after.entry(other)
        == first.entry(other) by {
        assert(world.entry(other) == first.entry(other));
    }
}

proof fn lemma_write_invariant<E>(
    data: Seq<u8>,
    first: World,
    events: Seq<EventView<E>>,
    worlds: Seq<World>,
)
    requires
        holds_file(first),
        runs(write_session::<E>(data), first, events, worlds),
    ensures
        writing(
            data,
            first,
            session_after(write_session::<E>(data), events),
            world_after(first, worlds),
        ),
{
    let start = write_session::<E>(data);
    let inv = |s: SessionView<E>, w: World| writing(data, first, s, w);
    assert forall|s: SessionView<E>, w: World, event: EventView<E>, after: World|
        #![trigger inv(s.after(event), after), inv(s, w)]
        inv(s, w) && s.pending() is Some && w.step(
            s.pending().unwrap(),
            event,
            after,
        ) implies inv(s.after(event), after) by {
        lemma_writing_step(data, first, s, w, event, after);
    }
    lemma_run_keeps(inv, start, first, events, worlds);
}

/// A writing session that succeeds leaves the file holding exactly the data,
/// all of it on stable storage, wherever the cursor stood before. Every other
/// file is as it was.
pub proof fn lemma_write_replaces_contents<E>(
    data: Seq<u8>,
    first: World,
    events: Seq<EventView<E>>,
    worlds: Seq<World>,
)
    requires
        holds_file(first),
        runs(write_session::<E>(data), first, events, worlds),
        session_after(write_session::<E>(data), events).succeeded(),
    ensures
        world_after(first, worlds).files == first.files.insert(
            first.handle.unwrap().path,
            data,
        ),
        !world_after(first, worlds).unsynced.contains(first.handle.unwrap().path),
{
    lemma_write_invariant::<E>(data, first, events, worlds);
    let path = first.handle.unwrap().path;
    let last = world_after(first, worlds);
    let expected = first.files.insert(path, data);
    assert forall|other: Seq<char>| #[trigger]
        last.files.dom().contains(other) == expected.dom().contains(other) && (
        last.files.dom().contains(other) ==> last.files[other] == expected[other]) by {
        if other != path {
            assert(last.entry(other) == first.entry(other));
        }
    }
}

/// However far a writing session gets, it touches no file but the backend's
/// own, and the backend's handle stays open on that file.
pub proof fn lemma_write_keeps_handle<E>(
    data: Seq<u8>,
    first: World,
    events: Seq<EventView<E>>,
    worlds: Seq<World>,
)
    requires
        holds_file(first),
        runs(write_session::<E>(data), first, events, worlds),
    ensures
        holds_file(world_after(first, worlds)),
        same_handle(first, world_after(first, worlds)),
        forall|other: Seq<char>|
            other != first.handle.unwrap().path ==> #[trigger] world_after(first, worlds).entry(
                other,
            ) == first.entry(other),
{
    lemma_write_invariant::<E>(data, first, events, worlds);
}

/// Writing the same data twice leaves the files as writing it once does.
pub proof fn lemma_write_twice<E>(
    data: Seq<u8>,
    first: World,
    events: Seq<EventView<E>>,
    worlds: Seq<World>,
    more_events: Seq<EventView<E>>,
    more_worlds: Seq<World>,
)
    requires
        holds_file(first),
        runs(write_session::<E>(data), first, events, worlds),
        session_after(write_session::<E>(data), events).succeeded(),
        runs(write_session::<E>(data), world_after(first, worlds), more_events, more_worlds),
        session_after(write_session::<E>(data), more_events).succeeded(),
    ensures
        world_after(world_after(first, worlds), more_worlds).files == world_after(
            first,
            worlds,
        ).files,
        world_after(world_after(first, worlds), more_worlds).unsynced == world_after(
            first,
            worlds,
        ).unsynced,
{
    let once = world_after(first, worlds);
    let twice = world_after(once, more_worlds);
    lemma_write_invariant::<E>(data, first, events, worlds);
    lemma_write_invariant::<E>(data, once, more_events, more_worlds);
    lemma_same_entries(twice, once);
}

/// What holds at every moment of a reading session that began on the file
/// system `first`.
spec fn reading<E>(first: World, session: SessionView<E>, world: World) -> bool {
    let path = first.handle.unwrap().path;
    &&& session.plan == File::reading_plan()
    &&& session.fallback.len() == 0
    &&& session.done <= 2
    &&& !session.holding
    &&& world.wf()
    &&& same_handle(first, world)
    &&& forall|other: Seq<char>| #[trigger] world.entry(other) == first.entry(other)
    &&& session.failure is None ==> {
        &&& session.done == 1 ==> world.handle.unwrap().cursor == 0
        &&& session.done == 2 ==> session.bytes == first.files[path]
    }
}

proof fn lemma_reading_step<E>(
    first: World,
    session: SessionView<E>,
    world: World,
    event: EventView<E>,
    after: World,
)
    requires
        first.handle is Some,
        reading(first, session, world),
        session.pending() is Some,
        world.step(session.pending().unwrap(), event, after),
    ensures
        reading(first, session.after(event), after),
{
    let path = first.handle.unwrap().path;
    let action = session.pending().unwrap();
    assert forall|other: Seq<char>| #[trigger] after.entry(other) == first.entry(other) by {
        assert(world.entry(other) == first.entry(other));
    }
    if session.failure is None && event is Done && session.done == 1 {
        assert(first.entry(path) == world.entry(path));
        assert(world.yields(action) =~= world.files[path]);
    }
}

proof fn lemma_read_invariant<E>(first: World, events: Seq<EventView<E>>, worlds: Seq<World>)
    requires
        holds_file(first),
        runs(read_session::<E>(), first, events, worlds),
    ensures
        reading(first, session_after(read_session::<E>(), events), world_after(first, worlds)),
{
    let start = read_session::<E>();
    let inv = |s: SessionView<E>, w: World| reading(first, s, w);
    assert forall|s: SessionView<E>, w: World, event: EventView<E>, after: World|
        #![trigger inv(s.after(event), after), inv(s, w)]
        inv(s, w) && s.pending() is Some && w.step(
            s.pending().unwrap(),
            event,
            after,
        ) implies inv(s.after(event), after) by {
        lemma_reading_step(first, s, w, event, after);
    }
    lemma_run_keeps(inv, start, first, events, worlds);
}

/// A reading session changes no file, however far it gets, and the backend's
/// handle stays open on its file. A session that succeeds hands back all that
/// the file holds, wherever the cursor stood before.
pub proof fn lemma_read_returns_contents<E>(
    first: World,
    events: Seq<EventView<E>>,
    worlds: Seq<World>,
)
    requires
        holds_file(first),
        runs(read_session::<E>(), first, events, worlds),
    ensures
        world_after(first, worlds).files == first.files,
        world_after(first, worlds).unsynced == first.unsynced,
        holds_file(world_after(first, worlds)),
        same_handle(first, world_after(first, worlds)),
        session_after(read_session::<E>(), events).succeeded() ==> session_after(
            read_session::<E>(),
            events,
        ).bytes == first.files[first.handle.unwrap().path],
{
    lemma_read_invariant::<E>(first, events, worlds);
    lemma_same_entries(world_after(first, worlds), first);
}

/// What a writing session stored is what a reading session then hands back:
/// if both succeed, the bytes read are the bytes written.
pub proof fn lemma_round_trip<E>(
    data: Seq<u8>,
    first: World,
    events: Seq<EventView<E>>,
    worlds: Seq<World>,
    more_events: Seq<EventView<E>>,
    more_worlds: Seq<World>,
)
    requires
        holds_file(first),
        runs(write_session::<E>(data), first, events, worlds),
        session_after(write_session::<E>(data), events).succeeded(),
        runs(read_session::<E>(), world_after(first, worlds), more_events, more_worlds),
        session_after(read_session::<E>(), more_events).succeeded(),
    ensures
        session_after(read_session::<E>(), more_events).bytes == data,
{
    lemma_write_replaces_contents::<E>(data, first, events, worlds);
    lemma_write_keeps_handle::<E>(data, first, events, worlds);
    lemma_read_returns_contents::<E>(world_after(first, worlds), more_events, more_worlds);
}

/// A writing session can succeed wherever the cursor stands: the run in which
/// all its actions succeed is a run.
pub proof fn lemma_write_can_succeed<E>(data: Seq<u8>, first: World)
    requires
        holds_file(first),
    ensures
        runs(
            write_session::<E>(data),
            first,
            smooth_events::<E>(first, File::writing_plan(data)),
            smooth_worlds(first, File::writing_plan(data)),
        ),
        session_after(
            write_session::<E>(data),
            smooth_events::<E>(first, File::writing_plan(data)),
        ).succeeded(),
{
    reveal_with_fuel(world_along, 5);
    lemma_smooth_run(first, write_session::<E>(data));
}

/// A reading session can succeed wherever the cursor stands.
pub proof fn lemma_read_can_succeed<E>(first: World)
    requires
        holds_file(first),
    ensures
        runs(
            read_session::<E>(),
            first,
            smooth_events::<E>(first, File::reading_plan()),
            smooth_worlds(first, File::reading_plan()),
        ),
        session_after(
            read_session::<E>(),
            smooth_events::<E>(first, File::reading_plan()),
        ).succeeded(),
{
    reveal_with_fuel(world_along, 3);
    lemma_smooth_run(first, read_session::<E>());
}

/// Opening with leave to create can succeed on a file that is there, at the
/// first attempt.
pub proof fn lemma_open_can_succeed<E>(path: Seq<char>, first: World)
    requires
        first.handle is None,
        first.files.contains_key(path),
    ensures
        runs(
            open_or_create_session::<E>(path),
            first,
            smooth_events::<E>(first, File::opening_plan(path)),
            smooth_worlds(first, File::opening_plan(path)),
        ),
        session_after(
            open_or_create_session::<E>(path),
            smooth_events::<E>(first, File::opening_plan(path)),
        ).succeeded(),
{
    reveal_with_fuel(world_along, 2);
    lemma_smooth_run(first, open_or_create_session::<E>(path));
}

/// Opening with leave to create can succeed on a file that is missing: the
/// first attempt reports that the file is not there, and the second creates
/// it.
pub proof fn lemma_create_can_succeed<E>(path: Seq<char>, first: World, error: E)
    requires
        first.handle is None,
        !first.files.contains_key(path),
    ensures
        runs(
            open_or_create_session::<E>(path),
            first,
            seq![EventView::Failed { not_found: true, error }] + smooth_events::<E>(
                first,
                File::creating_plan(path),
            ),
            seq![first] + smooth_worlds(first, File::creating_plan(path)),
        ),
        session_after(
            open_or_create_session::<E>(path),
            seq![EventView::Failed { not_found: true, error }] + smooth_events::<E>(
                first,
                File::creating_plan(path),
            ),
        ).succeeded(),
{
    let plan = File::creating_plan(path);
    let start = open_or_create_session::<E>(path);
    let missing = EventView::Failed { not_found: true, error };
    let events = seq![missing] + smooth_events::<E>(first, plan);
    let worlds = seq![first] + smooth_worlds(first, plan);
    reveal_with_fuel(world_along, 2);
    lemma_smooth_run(first, start.after(missing));
    assert(events.drop_first() =~= smooth_events::<E>(first, plan));
    assert(worlds.drop_first() =~= smooth_worlds(first, plan));
}

} // verus!
