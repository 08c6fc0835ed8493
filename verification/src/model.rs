//! A model of the file system, to state what the sessions achieve.
//!
//! The model follows one actor on a flat set of paths. The actor has at most
//! one handle open, opens a file only while it has none, and renames only
//! while it has none. Of a failed action the model assumes only that it leaves
//! every file alone that the action does not name. Nothing here runs: these
//! are the terms of the laws.

use vstd::prelude::*;
use crate::action::{ActionView, EventView, OpenMode};
use crate::session::SessionView;

verus! {

/// An open handle.
pub struct Handle {
    /// The path of the file that the handle is open on.
    pub path: Seq<char>,
    /// How far into the file the cursor stands.
    pub cursor: nat,
    /// The handle can be read from.
    pub read: bool,
    /// The handle can be written to.
    pub write: bool,
}

/// The file system at one moment.
pub struct World {
    /// What each file holds.
    pub files: Map<Seq<char>, Seq<u8>>,
    /// The files with changes that have not been forced onto stable storage.
    pub unsynced: Set<Seq<char>>,
    /// The open handle, if there is one.
    pub handle: Option<Handle>,
}

/// `old` after `data` was written `at` bytes into it. A gap is filled with zeros.
pub open spec fn overwrite(old: Seq<u8>, at: nat, data: Seq<u8>) -> Seq<u8> {
    let base = if at <= old.len() {
        old
    } else {
        old + Seq::new((at - old.len()) as nat, |i: int| 0u8)
    };
    let rest = if at + data.len() <= base.len() {
        base.subrange((at + data.len()) as int, base.len() as int)
    } else {
        Seq::empty()
    };
    base.subrange(0, at as int) + data + rest
}

impl OpenMode {
    /// The combinations that the operating system takes: some access, and
    /// neither creating nor emptying a file without write access.
    pub open spec fn valid(self) -> bool {
        &&& self.read || self.write
        &&& self.create ==> self.write
        &&& self.truncate ==> self.write
    }
}

impl World {
    /// The open handle's file is there.
    pub open spec fn wf(self) -> bool {
        self.handle matches Some(h) ==> self.files.contains_key(h.path)
    }

    /// The entry of `path`: what the file holds, if it is there, and whether
    /// all of it is on stable storage.
    pub open spec fn entry(self, path: Seq<char>) -> (Option<Seq<u8>>, bool) {
        (
            if self.files.contains_key(path) {
                Some(self.files[path])
            } else {
                None
            },
            !self.unsynced.contains(path),
        )
    }

    /// Whether `action` can succeed.
    pub open spec fn can(self, action: ActionView) -> bool {
        match action {
            ActionView::Open { path, mode } => self.handle is None && mode.valid() && (
            self.files.contains_key(path) || mode.create),
            ActionView::Rewind => self.handle is Some,
            ActionView::Truncate => self.handle matches Some(h) && h.write,
            ActionView::ReadToEnd => self.handle matches Some(h) && h.read,
            ActionView::WriteAll { data } => self.handle matches Some(h) && h.write,
            ActionView::Sync => self.handle is Some,
            ActionView::Close => true,
            ActionView::Rename { from, to } => self.handle is None && self.files.contains_key(
                from,
            ),
        }
    }

    /// The bytes that a successful `action` hands back.
    pub open spec fn yields(self, action: ActionView) -> Seq<u8> {
        match (action, self.handle) {
            (ActionView::ReadToEnd, Some(h)) => {
                let held = self.files[h.path];
                if h.cursor < held.len() {
                    held.subrange(h.cursor as int, held.len() as int)
                } else {
                    Seq::empty()
                }
            },
            _ => Seq::empty(),
        }
    }

    /// The file system after `action` succeeded.
    pub open spec fn succeed(self, action: ActionView) -> World {
        match action {
            ActionView::Open { path, mode } => {
                let fresh = !self.files.contains_key(path) || mode.truncate;
                World {
                    files: if fresh {
                        self.files.insert(path, Seq::empty())
                    } else {
                        self.files
                    },
                    unsynced: if fresh {
                        self.unsynced.insert(path)
                    } else {
                        self.unsynced
                    },
                    handle: Some(Handle { path, cursor: 0, read: mode.read, write: mode.write }),
                }
            },
            ActionView::Close => World { handle: None, ..self },
            ActionView::Rename { from, to } => World {
                files: self.files.remove(from).insert(to, self.files[from]),
                unsynced: if self.unsynced.contains(from) {
                    self.unsynced.remove(from).insert(to)
                } else {
                    self.unsynced.remove(to)
                },
                ..self
            },
            _ => match self.handle {
                None => self,
                Some(h) => match action {
                    ActionView::Rewind => World {
                        handle: Some(Handle { cursor: 0, ..h }),
                        ..self
                    },
                    ActionView::Truncate => World {
                        files: self.files.insert(h.path, Seq::empty()),
                        unsynced: self.unsynced.insert(h.path),
                        ..self
                    },
                    ActionView::ReadToEnd => World {
                        handle: Some(
                            Handle {
                                cursor: if h.cursor < self.files[h.path].len() {
                                    self.files[h.path].len()
                                } else {
                                    h.cursor
                                },
                                ..h
                            },
                        ),
                        ..self
                    },
                    ActionView::WriteAll { data } => World {
                        files: self.files.insert(
                            h.path,
                            overwrite(self.files[h.path], h.cursor, data),
                        ),
                        unsynced: self.unsynced.insert(h.path),
                        handle: Some(Handle { cursor: h.cursor + data.len(), ..h }),
                    },
                    ActionView::Sync => World { unsynced: self.unsynced.remove(h.path), ..self },
                    _ => self,
                },
            },
        }
    }

    /// The files that `action` may leave changed when it fails.
    pub open spec fn touched(self, action: ActionView) -> Set<Seq<char>> {
        match action {
            ActionView::Open { path, mode } => if mode.create || mode.truncate {
                set![path]
            } else {
                Set::empty()
            },
            ActionView::Truncate | ActionView::WriteAll { .. } => match self.handle {
                Some(h) => set![h.path],
                None => Set::empty(),
            },
            ActionView::Rename { from, to } => set![from, to],
            _ => Set::empty(),
        }
    }

    /// Whether `action` may fail and leave the file system as `after`;
    /// `not_found` is what the failure reports. Every file that the action does
    /// not touch is as before. A failed `Open` leaves no handle; after any
    /// other failure the open handle is still open, its cursor anywhere. Only
    /// opening a missing file without leave to create it reports that the file
    /// is not there. Closing does not fail.
    pub open spec fn may_fail(self, action: ActionView, not_found: bool, after: World) -> bool {
        &&& !(action is Close)
        &&& forall|path: Seq<char>|
            !self.touched(action).contains(path) ==> #[trigger] after.entry(path) == self.entry(
                path,
            )
        &&& match (self.handle, after.handle) {
            (None, None) => true,
            (Some(h), Some(k)) => !(action is Open) && k.path == h.path && k.read == h.read
                && k.write == h.write,
            _ => false,
        }
        &&& after.wf()
        &&& not_found ==> (action matches ActionView::Open { path, mode }
            && !self.files.contains_key(path) && !mode.create)
    }

    /// Whether performing `action` may come to `event` and leave the file
    /// system as `after`.
    pub open spec fn step<E>(self, action: ActionView, event: EventView<E>, after: World) -> bool {
        match event {
            EventView::Done { bytes } => self.can(action) && after == self.succeed(action)
                && bytes == self.yields(action),
            EventView::Failed { not_found, error } => self.may_fail(action, not_found, after),
        }
    }
}

/// Whether `session`, driven on a file system that starts as `world`, may see
/// `events` in this order while the file system passes through `worlds`, each
/// the state after the event of the same index.
pub open spec fn runs<E>(
    session: SessionView<E>,
    world: World,
    events: Seq<EventView<E>>,
    worlds: Seq<World>,
) -> bool
    decreases events.len(),
{
    if events.len() == 0 {
        worlds.len() == 0
    } else {
        &&& worlds.len() == events.len()
        &&& session.pending() matches Some(action)
        &&& world.step(action, events[0], worlds[0])
        &&& runs(session.after(events[0]), worlds[0], events.drop_first(), worlds.drop_first())
    }
}

/// The session after it has seen all of `events`.
pub open spec fn session_after<E>(session: SessionView<E>, events: Seq<EventView<E>>)
    -> SessionView<E>
    decreases events.len(),
{
    if events.len() == 0 {
        session
    } else {
        session_after(session.after(events[0]), events.drop_first())
    }
}

/// The file system at the end of a run through `worlds`.
pub open spec fn world_after(world: World, worlds: Seq<World>) -> World {
    if worlds.len() == 0 {
        world
    } else {
        worlds.last()
    }
}

/// Two file systems with the same entry at every path hold the same files, in
/// the same state.
pub proof fn lemma_same_entries(a: World, b: World)
    requires
        forall|path: Seq<char>| #[trigger] a.entry(path) == b.entry(path),
    ensures
        a.files == b.files,
        a.unsynced == b.unsynced,
{
    assert forall|path: Seq<char>| #[trigger]
        a.files.dom().contains(path) == b.files.dom().contains(path) && (a.files.dom().contains(
            path,
        ) ==> a.files[path] == b.files[path]) by {
        assert(a.entry(path) == b.entry(path));
    }
    assert forall|path: Seq<char>| #[trigger]
        a.unsynced.contains(path) == b.unsynced.contains(path) by {
        assert(a.entry(path) == b.entry(path));
    }
}

/// What holds before a run and is kept by every step holds after the run.
pub proof fn lemma_run_keeps<E>(
    inv: spec_fn(SessionView<E>, World) -> bool,
    session: SessionView<E>,
    world: World,
    events: Seq<EventView<E>>,
    worlds: Seq<World>,
)
    requires
        inv(session, world),
        runs(session, world, events, worlds),
        forall|s: SessionView<E>, w: World, event: EventView<E>, after: World|
            #![trigger inv(s.after(event), after), inv(s, w)]
            inv(s, w) && s.pending() is Some && w.step(s.pending().unwrap(), event, after)
                ==> inv(s.after(event), after),
    ensures
        inv(session_after(session, events), world_after(world, worlds)),
    decreases events.len(),
{
    if events.len() > 0 {
        let next = session.after(events[0]);
        lemma_run_keeps(inv, next, worlds[0], events.drop_first(), worlds.drop_first());
    }
}

/// The file system after the first `count` actions of `plan` succeeded, one
/// after the other.
pub open spec fn world_along(world: World, plan: Seq<ActionView>, count: nat) -> World
    decreases count,
{
    if count == 0 {
        world
    } else {
        world_along(world, plan, (count - 1) as nat).succeed(plan[count - 1])
    }
}

/// Every action of `plan` can succeed when its turn comes.
pub open spec fn passable(world: World, plan: Seq<ActionView>) -> bool {
    forall|i: nat| i < plan.len() ==> #[trigger] world_along(world, plan, i).can(plan[i as int])
}

/// The events of the run in which every action of `plan` succeeds.
pub open spec fn smooth_events<E>(world: World, plan: Seq<ActionView>) -> Seq<EventView<E>> {
    Seq::new(
        plan.len(),
        |i: int| EventView::Done { bytes: world_along(world, plan, i as nat).yields(plan[i]) },
    )
}

/// The file systems that the run in which every action of `plan` succeeds
/// passes through.
pub open spec fn smooth_worlds(world: World, plan: Seq<ActionView>) -> Seq<World> {
    Seq::new(plan.len(), |i: int| world_along(world, plan, (i + 1) as nat))
}

proof fn lemma_smooth_from<E>(world: World, session: SessionView<E>)
    requires
        passable(world, session.plan),
        session.failure is None,
        session.done <= session.plan.len(),
    ensures
        runs(
            session,
            world_along(world, session.plan, session.done),
            smooth_events::<E>(world, session.plan).skip(session.done as int),
            smooth_worlds(world, session.plan).skip(session.done as int),
        ),
        session_after(
            session,
            smooth_events::<E>(world, session.plan).skip(session.done as int),
        ).succeeded(),
        session_after(
            session,
            smooth_events::<E>(world, session.plan).skip(session.done as int),
        ).existed == session.existed,
    decreases session.plan.len() - session.done,
{
    let plan = session.plan;
    let events = smooth_events::<E>(world, plan).skip(session.done as int);
    let worlds = smooth_worlds(world, plan).skip(session.done as int);
    if session.done < plan.len() {
        let next = session.after(events[0]);
        assert(events.drop_first() =~= smooth_events::<E>(world, plan).skip(next.done as int));
        assert(worlds.drop_first() =~= smooth_worlds(world, plan).skip(next.done as int));
        lemma_smooth_from(world, next);
    }
}

/// A session that has not started, on a plan whose every action can succeed
/// in its turn, has a run in which they all do; it ends in success, on the
/// file system that the actions lead to.
pub proof fn lemma_smooth_run<E>(world: World, session: SessionView<E>)
    requires
        passable(world, session.plan),
        session.failure is None,
        session.done == 0,
    ensures
        runs(
            session,
            world,
            smooth_events::<E>(world, session.plan),
            smooth_worlds(world, session.plan),
        ),
        session_after(session, smooth_events::<E>(world, session.plan)).succeeded(),
        session_after(session, smooth_events::<E>(world, session.plan)).existed
            == session.existed,
        world_after(world, smooth_worlds(world, session.plan)) == world_along(
            world,
            session.plan,
            session.plan.len(),
        ),
{
    lemma_smooth_from(world, session);
    assert(smooth_events::<E>(world, session.plan).skip(0) =~= smooth_events::<E>(
        world,
        session.plan,
    ));
    assert(smooth_worlds(world, session.plan).skip(0) =~= smooth_worlds(world, session.plan));
}

} // verus!
