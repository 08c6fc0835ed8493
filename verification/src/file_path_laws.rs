//! What the sessions of the path backend achieve on the model file system.

use vstd::prelude::*;
use crate::action::{EventView, OpenMode};
use crate::file_path::FilePath;
use crate::model::{
    lemma_run_keeps, lemma_same_entries, lemma_smooth_run, runs, session_after, smooth_events,
    smooth_worlds, world_after, world_along, Handle, World,
};
use crate::session::SessionView;

verus! {

/// The session that `FilePath::write` starts.
pub open spec fn write_session<E>(path: Seq<char>, data: Seq<u8>) -> SessionView<E> {
    SessionView::start(FilePath::writing_plan(path, data), Seq::empty())
}

/// The session that `FilePath::read` starts.
pub open spec fn read_session<E>(path: Seq<char>) -> SessionView<E> {
    SessionView::start(FilePath::reading_plan(path), Seq::empty())
}

/// The session that `FilePath::from_path` starts.
pub open spec fn probe_session<E>(path: Seq<char>) -> SessionView<E> {
    SessionView::start(FilePath::probing_plan(path, OpenMode::existing()), Seq::empty())
}

/// The session that `FilePath::from_path_or_create` starts.
pub open spec fn probe_or_create_session<E>(path: Seq<char>) -> SessionView<E> {
    SessionView::start(
        FilePath::probing_plan(path, OpenMode::existing()),
        FilePath::probing_plan(path, OpenMode::create_if_missing()),
    )
}

/// The rename of a writing session has been tried: it succeeded, or it is the
/// action that failed.
pub open spec fn rename_tried<E>(session: SessionView<E>) -> bool {
    session.done >= 5 || (session.done == 4 && session.failure is Some)
}

/// What holds at every moment of a writing session on `path` that began on
/// the file system `first`.
spec fn writing<E>(
    path: Seq<char>,
    data: Seq<u8>,
    first: World,
    session: SessionView<E>,
    world: World,
) -> bool {
    let temporary = FilePath::temporary(path);
    let at_temporary = Some(Handle { path: temporary, cursor: 0, read: false, write: true });
    let filled = Some(
        Handle { path: temporary, cursor: data.len(), read: false, write: true },
    );
    &&& session.plan == FilePath::writing_plan(path, data)
    &&& session.fallback.len() == 0
    &&& session.done <= 5
    &&& session.holding == (world.handle is Some)
    &&& world.wf()
    &&& forall|other: Seq<char>|
        other != temporary && other != path ==> #[trigger] world.entry(other) == first.entry(
            other,
        )
    &&& !rename_tried(session) ==> world.entry(path) == first.entry(path)
    &&& session.failure is Some ==> (world.handle matches Some(h) ==> h.path == temporary)
    &&& session.failure is None ==> if session.done == 0 {
        world.handle is None && world.entry(temporary) == first.entry(temporary)
    } else if session.done == 1 {
        world.handle == at_temporary && world.files[temporary] == Seq::<u8>::empty()
    } else if session.done == 2 {
        world.handle == filled && world.files[temporary] == data
    } else if session.done == 3 {
        world.handle == filled && world.entry(temporary) == (Some(data), true)
    } else if session.done == 4 {
        world.handle is None && world.entry(temporary) == (Some(data), true)
    } else {
        world.handle is None && world.entry(temporary) == (None::<Seq<u8>>, true)
            && world.entry(path) == (Some(data), true)
    }
}

/// The temporary file is never the file itself.
pub proof fn lemma_temporary_differs(path: Seq<char>)
    ensures
        FilePath::temporary(path) != path,
{
}

proof fn lemma_writing_step<E>(
    path: Seq<char>,
    data: Seq<u8>,
    first: World,
    session: SessionView<E>,
    world: World,
    event: EventView<E>,
    after: World,
)
    requires
        writing(path, data, first, session, world),
        session.pending() is Some,
        world.step(session.pending().unwrap(), event, after),
    ensures
        writing(path, data, first, session.after(event), after),
{
    lemma_temporary_differs(path);
    let temporary = FilePath::temporary(path);
    let action = session.pending().unwrap();
    assert forall|other: Seq<char>|
        other != temporary && other != path implies #[trigger] after.entry(other) == first.entry(
        other,
    ) by {
        assert(world.entry(other) == first.entry(other));
        if event is Failed {
            assert(!world.touched(action).contains(other));
        }
    }
}

/// At every moment of a writing session the file at the path is as it was
/// before the session, whether it was there or not, for as long as the rename
/// has not been tried; and every file but the two that the session names is as
/// it was, whatever happens.
pub proof fn lemma_write_spares_file<E>(
    path: Seq<char>,
    data: Seq<u8>,
    first: World,
    events: Seq<EventView<E>>,
    worlds: Seq<World>,
)
    requires
        first.handle is None,
        runs(write_session::<E>(path, data), first, events, worlds),
    ensures
        !rename_tried(session_after(write_session::<E>(path, data), events)) ==> world_after(
            first,
            worlds,
        ).entry(path) == first.entry(path),
        forall|other: Seq<char>|
            other != path && other != FilePath::temporary(path) ==> #[trigger] world_after(
                first,
                worlds,
            ).entry(other) == first.entry(other),
{
    lemma_write_invariant::<E>(path, data, first, events, worlds);
}

/// A writing session that succeeds leaves the file at the path holding exactly
/// the data, all of it on stable storage; the temporary file is gone, every
/// other file is as it was, and no handle is left open.
pub proof fn lemma_write_replaces_file<E>(
    path: Seq<char>,
    data: Seq<u8>,
    first: World,
    events: Seq<EventView<E>>,
    worlds: Seq<World>,
)
    requires
        first.handle is None,
        runs(write_session::<E>(path, data), first, events, worlds),
        session_after(write_session::<E>(path, data), events).succeeded(),
    ensures
        world_after(first, worlds).files == first.files.remove(FilePath::temporary(path)).insert(
            path,
            data,
        ),
        world_after(first, worlds).entry(path) == (Some(data), true),
        !world_after(first, worlds).files.contains_key(FilePath::temporary(path)),
        world_after(first, worlds).handle is None,
{
    lemma_write_invariant::<E>(path, data, first, events, worlds);
    lemma_temporary_differs(path);
    let last = world_after(first, worlds);
    let temporary = FilePath::temporary(path);
    let expected = first.files.remove(temporary).insert(path, data);
    assert forall|other: Seq<char>| #[trigger]
        last.files.dom().contains(other) == expected.dom().contains(other) && (
        last.files.dom().contains(other) ==> last.files[other] == expected[other]) by {
        if other != temporary && other != path {
            assert(last.entry(other) == first.entry(other));
        }
    }
}

/// However a writing session ends, it leaves no handle open.
pub proof fn lemma_write_releases_handle<E>(
    path: Seq<char>,
    data: Seq<u8>,
    first: World,
    events: Seq<EventView<E>>,
    worlds: Seq<World>,
)
    requires
        first.handle is None,
        runs(write_session::<E>(path, data), first, events, worlds),
        session_after(write_session::<E>(path, data), events).pending() is None,
    ensures
        world_after(first, worlds).handle is None,
{
    lemma_write_invariant::<E>(path, data, first, events, worlds);
}

/// Writing the same data twice leaves the files as writing it once does.
pub proof fn lemma_write_twice<E>(
    path: Seq<char>,
    data: Seq<u8>,
    first: World,
    events: Seq<EventView<E>>,
    worlds: Seq<World>,
    more_events: Seq<EventView<E>>,
    more_worlds: Seq<World>,
)
    requires
        first.handle is None,
        runs(write_session::<E>(path, data), first, events, worlds),
        session_after(write_session::<E>(path, data), events).succeeded(),
        runs(
            write_session::<E>(path, data),
            world_after(first, worlds),
            more_events,
            more_worlds,
        ),
        session_after(write_session::<E>(path, data), more_events).succeeded(),
    ensures
        world_after(world_after(first, worlds), more_worlds).files == world_after(
            first,
            worlds,
        ).files,
        world_after(world_after(first, worlds), more_worlds).unsynced == world_after(
            first,
            worlds,
        ).unsynced,
{
    let once = world_after(first, worlds);
    let twice = world_after(once, more_worlds);
    lemma_temporary_differs(path);
    lemma_write_invariant::<E>(path, data, first, events, worlds);
    lemma_write_invariant::<E>(path, data, once, more_events, more_worlds);
    assert forall|other: Seq<char>| #[trigger] twice.entry(other) == once.entry(other) by {
        if other == FilePath::temporary(path) {
            lemma_write_leaves_temporary_entry::<E>(path, data, first, events, worlds);
            lemma_write_leaves_temporary_entry::<E>(path, data, once, more_events, more_worlds);
        }
    }
    lemma_same_entries(twice, once);
}

proof fn lemma_write_leaves_temporary_entry<E>(
    path: Seq<char>,
    data: Seq<u8>,
    first: World,
    events: Seq<EventView<E>>,
    worlds: Seq<World>,
)
    requires
        first.handle is None,
        runs(write_session::<E>(path, data), first, events, worlds),
        session_after(write_session::<E>(path, data), events).succeeded(),
    ensures
        world_after(first, worlds).entry(FilePath::temporary(path)) == (None::<Seq<u8>>, true),
{
    lemma_write_invariant::<E>(path, data, first, events, worlds);
}

/// What holds at every moment of a reading session on `path` that began on
/// the file system `first`.
spec fn reading<E>(
    path: Seq<char>,
    first: World,
    session: SessionView<E>,
    world: World,
) -> bool {
    &&& session.plan == FilePath::reading_plan(path)
    &&& session.fallback.len() == 0
    &&& session.done <= 3
    &&& session.holding == (world.handle is Some)
    &&& world.wf()
    &&& forall|other: Seq<char>| #[trigger] world.entry(other) == first.entry(other)
    &&& world.handle matches Some(h) ==> h.path == path
    &&& session.failure is None ==> if session.done == 0 {
        world.handle is None
    } else if session.done == 1 {
        world.handle == Some(Handle { path, cursor: 0, read: true, write: false })
    } else {
        &&& first.files.contains_key(path)
        &&& session.bytes == first.files[path]
        &&& session.done == 2 ==> world.handle is Some
        &&& session.done == 3 ==> world.handle is None
    }
}

proof fn lemma_reading_step<E>(
    path: Seq<char>,
    first: World,
    session: SessionView<E>,
    world: World,
    event: EventView<E>,
    after: World,
)
    requires
        reading(path, first, session, world),
        session.pending() is Some,
        world.step(session.pending().unwrap(), event, after),
    ensures
        reading(path, first, session.after(event), after),
{
    let action = session.pending().unwrap();
    assert forall|other: Seq<char>| #[trigger] after.entry(other) == first.entry(other) by {
        assert(world.entry(other) == first.entry(other));
    }
    if session.failure is None && event is Done && session.done == 1 {
        assert(first.entry(path) == world.entry(path));
        assert(world.yields(action) =~= world.files[path]);
    }
}

proof fn lemma_read_invariant<E>(
    path: Seq<char>,
    first: World,
    events: Seq<EventView<E>>,
    worlds: Seq<World>,
)
    requires
        first.handle is None,
        runs(read_session::<E>(path), first, events, worlds),
    ensures
        reading(
            path,
            first,
            session_after(read_session::<E>(path), events),
            world_after(first, worlds),
        ),
{
    let start = read_session::<E>(path);
    let inv = |s: SessionView<E>, w: World| reading(path, first, s, w);
    assert forall|s: SessionView<E>, w: World, event: EventView<E>, after: World|
        #![trigger inv(s.after(event), after), inv(s, w)]
        inv(s, w) && s.pending() is Some && w.step(
            s.pending().unwrap(),
            event,
            after,
        ) implies inv(s.after(event), after) by {
        lemma_reading_step(path, first, s, w, event, after);
    }
    lemma_run_keeps(inv, start, first, events, worlds);
}

/// A reading session changes no file, however far it gets, and once it is over
/// no handle is left open.
pub proof fn lemma_read_changes_nothing<E>(
    path: Seq<char>,
    first: World,
    events: Seq<EventView<E>>,
    worlds: Seq<World>,
)
    requires
        first.handle is None,
        runs(read_session::<E>(path), first, events, worlds),
    ensures
        world_after(first, worlds).files == first.files,
        world_after(first, worlds).unsynced == first.unsynced,
        session_after(read_session::<E>(path), events).pending() is None ==> world_after(
            first,
            worlds,
        ).handle is None,
{
    lemma_read_invariant::<E>(path, first, events, worlds);
    lemma_same_entries(world_after(first, worlds), first);
}

/// A reading session that succeeds hands back all that the file holds.
pub proof fn lemma_read_returns_file<E>(
    path: Seq<char>,
    first: World,
    events: Seq<EventView<E>>,
    worlds: Seq<World>,
)
    requires
        first.handle is None,
        runs(read_session::<E>(path), first, events, worlds),
        session_after(read_session::<E>(path), events).succeeded(),
    ensures
        first.files.contains_key(path),
        session_after(read_session::<E>(path), events).bytes == first.files[path],
{
    lemma_read_invariant::<E>(path, first, events, worlds);
}

/// What a writing session stored is what a reading session then hands back:
/// if both succeed, the bytes read are the bytes written.
pub proof fn lemma_round_trip<E>(
    path: Seq<char>,
    data: Seq<u8>,
    first: World,
    events: Seq<EventView<E>>,
    worlds: Seq<World>,
    more_events: Seq<EventView<E>>,
    more_worlds: Seq<World>,
)
    requires
        first.handle is None,
        runs(write_session::<E>(path, data), first, events, worlds),
        session_after(write_session::<E>(path, data), events).succeeded(),
        runs(read_session::<E>(path), world_after(first, worlds), more_events, more_worlds),
        session_after(read_session::<E>(path), more_events).succeeded(),
    ensures
        session_after(read_session::<E>(path), more_events).bytes == data,
{
    lemma_write_replaces_file::<E>(path, data, first, events, worlds);
    lemma_read_returns_file::<E>(path, world_after(first, worlds), more_events, more_worlds);
}

/// What holds at every moment of a probing session on `path` that began on the
/// file system `first`; `create` tells whether the session may create the file.
spec fn probing<E>(
    path: Seq<char>,
    create: bool,
    first: World,
    session: SessionView<E>,
    world: World,
) -> bool {
    let fell_back = !session.existed;
    &&& if fell_back {
        &&& create
        &&& session.plan == FilePath::probing_plan(path, OpenMode::create_if_missing())
        &&& session.fallback.len() == 0
        &&& !first.files.contains_key(path)
    } else {
        &&& session.plan == FilePath::probing_plan(path, OpenMode::existing())
        &&& session.fallback == if create {
            FilePath::probing_plan(path, OpenMode::create_if_missing())
        } else {
            Seq::empty()
        }
    }
    &&& session.done <= 2
    &&& session.holding == (world.handle is Some)
    &&& world.wf()
    &&& forall|other: Seq<char>|
        other != path ==> #[trigger] world.entry(other) == first.entry(other)
    &&& world.handle matches Some(h) ==> h.path == path
    &&& !fell_back ==> world.entry(path) == first.entry(path)
    &&& session.failure is None ==> {
        &&& session.done == 0 ==> world.handle is None && world.entry(path) == first.entry(path)
        &&& session.done == 1 ==> world.handle is Some
        &&& session.done == 2 ==> world.handle is None
        &&& session.done >= 1 ==> if fell_back {
            world.entry(path) == (Some(Seq::<u8>::empty()), false)
        } else {
            first.files.contains_key(path)
        }
    }
}

proof fn lemma_probing_step<E>(
    path: Seq<char>,
    create: bool,
    first: World,
    session: SessionView<E>,
    world: World,
    event: EventView<E>,
    after: World,
)
    requires
        probing(path, create, first, session, world),
        session.pending() is Some,
        world.step(session.pending().unwrap(), event, after),
    ensures
        probing(path, create, first, session.after(event), after),
{
    assert forall|other: Seq<char>| other != path implies #[trigger] after.entry(other)
        == first.entry(other) by {
        assert(world.entry(other) == first.entry(other));
    }
}

proof fn lemma_probe_invariant<E>(
    path: Seq<char>,
    create: bool,
    first: World,
    events: Seq<EventView<E>>,
    worlds: Seq<World>,
)
    requires
        first.handle is None,
        runs(
            if create {
                probe_or_create_session::<E>(path)
            } else {
                probe_session::<E>(path)
            },
            first,
            events,
            worlds,
        ),
    ensures
        probing(
            path,
            create,
            first,
            session_after(
                if create {
                    probe_or_create_session::<E>(path)
                } else {
                    probe_session::<E>(path)
                },
                events,
            ),
            world_after(first, worlds),
        ),
{
    let start = if create {
        probe_or_create_session::<E>(path)
    } else {
        probe_session::<E>(path)
    };
    let inv = |s: SessionView<E>, w: World| probing(path, create, first, s, w);
    assert forall|s: SessionView<E>, w: World, event: EventView<E>, after: World|
        #![trigger inv(s.after(event), after), inv(s, w)]
        inv(s, w) && s.pending() is Some && w.step(
            s.pending().unwrap(),
            event,
            after,
        ) implies inv(s.after(event), after) by {
        lemma_probing_step(path, create, first, s, w, event, after);
    }
    lemma_run_keeps(inv, start, first, events, worlds);
}

/// Probing for a file changes no file, however far it gets; it succeeds only
/// if the file is there; and once it is over no handle is left open.
pub proof fn lemma_probe<E>(
    path: Seq<char>,
    first: World,
    events: Seq<EventView<E>>,
    worlds: Seq<World>,
)
    requires
        first.handle is None,
        runs(probe_session::<E>(path), first, events, worlds),
    ensures
        world_after(first, worlds).files == first.files,
        world_after(first, worlds).unsynced == first.unsynced,
        session_after(probe_session::<E>(path), events).succeeded() ==> first.files.contains_key(
            path,
        ),
        session_after(probe_session::<E>(path), events).pending() is None ==> world_after(
            first,
            worlds,
        ).handle is None,
{
    lemma_probe_invariant::<E>(path, false, first, events, worlds);
    let last = world_after(first, worlds);
    assert forall|other: Seq<char>| #[trigger] last.entry(other) == first.entry(other) by {
    }
    lemma_same_entries(last, first);
}

/// Probing with leave to create, once it has succeeded: the session reports
/// that the file existed exactly if it did. A file that existed is as it was;
/// one that did not is there and empty. Every other file is as it was, and no
/// handle is left open.
pub proof fn lemma_probe_or_create<E>(
    path: Seq<char>,
    first: World,
    events: Seq<EventView<E>>,
    worlds: Seq<World>,
)
    requires
        first.handle is None,
        runs(probe_or_create_session::<E>(path), first, events, worlds),
        session_after(probe_or_create_session::<E>(path), events).succeeded(),
    ensures
        session_after(probe_or_create_session::<E>(path), events).existed
            == first.files.contains_key(path),
        world_after(first, worlds).files == if first.files.contains_key(path) {
            first.files
        } else {
            first.files.insert(path, Seq::empty())
        },
        world_after(first, worlds).handle is None,
{
    lemma_probe_invariant::<E>(path, true, first, events, worlds);
    let last = world_after(first, worlds);
    let expected = if first.files.contains_key(path) {
        first.files
    } else {
        first.files.insert(path, Seq::empty())
    };
    assert forall|other: Seq<char>| #[trigger]
        last.files.dom().contains(other) == expected.dom().contains(other) && (
        last.files.dom().contains(other) ==> last.files[other] == expected[other]) by {
        if other != path {
            assert(last.entry(other) == first.entry(other));
        }
    }
}

/// Probing with leave to create, however far it gets: no file but the one at
/// the path is changed, and that one is changed only if it was missing.
pub proof fn lemma_probe_or_create_spares_files<E>(
    path: Seq<char>,
    first: World,
    events: Seq<EventView<E>>,
    worlds: Seq<World>,
)
    requires
        first.handle is None,
        runs(probe_or_create_session::<E>(path), first, events, worlds),
    ensures
        forall|other: Seq<char>|
            other != path || first.files.contains_key(path) ==> #[trigger] world_after(
                first,
                worlds,
            ).entry(other) == first.entry(other),
        session_after(probe_or_create_session::<E>(path), events).pending() is None
            ==> world_after(first, worlds).handle is None,
{
    lemma_probe_invariant::<E>(path, true, first, events, worlds);
}

proof fn lemma_write_invariant<E>(
    path: Seq<char>,
    data: Seq<u8>,
    first: World,
    events: Seq<EventView<E>>,
    worlds: Seq<World>,
)
    requires
        first.handle is None,
        runs(write_session::<E>(path, data), first, events, worlds),
    ensures
        writing(
            path,
            data,
            first,
            session_after(write_session::<E>(path, data), events),
            world_after(first, worlds),
        ),
{
    let start = write_session::<E>(path, data);
    let inv = |s: SessionView<E>, w: World| writing(path, data, first, s, w);
    assert(inv(start, first));
    assert forall|s: SessionView<E>, w: World, event: EventView<E>, after: World|
        #![trigger inv(s.after(event), after), inv(s, w)]
        inv(s, w) && s.pending() is Some && w.step(
            s.pending().unwrap(),
            event,
            after,
        ) implies inv(s.after(event), after) by {
        lemma_writing_step(path, data, first, s, w, event, after);
    }
    lemma_run_keeps(inv, start, first, events, worlds);
}

/// A writing session can succeed whatever the files are: the run in which all
/// its actions succeed is a run.
pub proof fn lemma_write_can_succeed<E>(path: Seq<char>, data: Seq<u8>, first: World)
    requires
        first.handle is None,
    ensures
        runs(
            write_session::<E>(path, data),
            first,
            smooth_events::<E>(first, FilePath::writing_plan(path, data)),
            smooth_worlds(first, FilePath::writing_plan(path, data)),
        ),
        session_after(
            write_session::<E>(path, data),
            smooth_events::<E>(first, FilePath::writing_plan(path, data)),
        ).succeeded(),
{
    reveal_with_fuel(world_along, 6);
    lemma_smooth_run(first, write_session::<E>(path, data));
}

/// A reading session can succeed if the file is there.
pub proof fn lemma_read_can_succeed<E>(path: Seq<char>, first: World)
    requires
        first.handle is None,
        first.files.contains_key(path),
    ensures
        runs(
            read_session::<E>(path),
            first,
            smooth_events::<E>(first, FilePath::reading_plan(path)),
            smooth_worlds(first, FilePath::reading_plan(path)),
        ),
        session_after(
            read_session::<E>(path),
            smooth_events::<E>(first, FilePath::reading_plan(path)),
        ).succeeded(),
{
    reveal_with_fuel(world_along, 4);
    lemma_smooth_run(first, read_session::<E>(path));
}

/// Probing with leave to create can succeed on a file that is there, at the
/// first attempt.
pub proof fn lemma_probe_can_succeed<E>(path: Seq<char>, first: World)
    requires
        first.handle is None,
        first.files.contains_key(path),
    ensures
        runs(
            probe_or_create_session::<E>(path),
            first,
            smooth_events::<E>(first, FilePath::probing_plan(path, OpenMode::existing())),
            smooth_worlds(first, FilePath::probing_plan(path, OpenMode::existing())),
        ),
        session_after(
            probe_or_create_session::<E>(path),
            smooth_events::<E>(first, FilePath::probing_plan(path, OpenMode::existing())),
        ).succeeded(),
{
    reveal_with_fuel(world_along, 3);
    lemma_smooth_run(first, probe_or_create_session::<E>(path));
}

/// Probing with leave to create can succeed on a file that is missing: the
/// first attempt reports that the file is not there, and the second creates
/// it.
pub proof fn lemma_create_can_succeed<E>(path: Seq<char>, first: World, error: E)
    requires
        first.handle is None,
        !first.files.contains_key(path),
    ensures
        runs(
            probe_or_create_session::<E>(path),
            first,
            seq![EventView::Failed { not_found: true, error }] + smooth_events::<E>(
                first,
                FilePath::probing_plan(path, OpenMode::create_if_missing()),
            ),
            seq![first] + smooth_worlds(
                first,
                FilePath::probing_plan(path, OpenMode::create_if_missing()),
            ),
        ),
        session_after(
            probe_or_create_session::<E>(path),
            seq![EventView::Failed { not_found: true, error }] + smooth_events::<E>(
                first,
                FilePath::probing_plan(path, OpenMode::create_if_missing()),
            ),
        ).succeeded(),
{
    let plan = FilePath::probing_plan(path, OpenMode::create_if_missing());
    let start = probe_or_create_session::<E>(path);
    let missing = EventView::Failed { not_found: true, error };
    let events = seq![missing] + smooth_events::<E>(first, plan);
    let worlds = seq![first] + smooth_worlds(first, plan);
    reveal_with_fuel(world_along, 3);
    lemma_smooth_run(first, start.after(missing));
    assert(events.drop_first() =~= smooth_events::<E>(first, plan));
    assert(worlds.drop_first() =~= smooth_worlds(first, plan));
}

} // verus!
