//! The backend that keeps one file handle open for as long as it lives.
//!
//! The handle stays with whoever performs the I/O. Each procedure here is a
//! session whose actions work on that handle; none of them closes it. A write
//! empties the file before it fills it again, so a write that fails may leave
//! the file damaged.

use vstd::prelude::*;
use crate::action::{Action, ActionView, OpenMode};
use crate::session::{Session, SessionView};

verus! {

/// A file-backed backend that holds its file open.
#[derive(Debug)]
pub struct File;

impl File {
    /// The plan that opens the file at `path`, which must be there.
    pub open spec fn opening_plan(path: Seq<char>) -> Seq<ActionView> {
        seq![ActionView::Open { path, mode: OpenMode::existing() }]
    }

    /// The plan that opens the file at `path` and creates it if it is missing.
    pub open spec fn creating_plan(path: Seq<char>) -> Seq<ActionView> {
        seq![ActionView::Open { path, mode: OpenMode::create_if_missing() }]
    }

    /// The plan that reads the whole file, wherever the cursor stands.
    pub open spec fn reading_plan() -> Seq<ActionView> {
        seq![ActionView::Rewind, ActionView::ReadToEnd]
    }

    /// The plan that replaces what the file holds by `data` and makes it durable.
    pub open spec fn writing_plan(data: Seq<u8>) -> Seq<ActionView> {
        seq![
            ActionView::Rewind,
            ActionView::Truncate,
            ActionView::WriteAll { data },
            ActionView::Sync,
        ]
    }

    /// Creates the backend by opening the file at the given path for reading
    /// and writing. The session fails if the file cannot be opened; when it
    /// succeeds, the handle that it opened is the backend's.
    pub fn from_path<E>(path: String) -> (res: Session<E>)
        ensures
            res@ == SessionView::<E>::start(Self::opening_plan(path@), Seq::empty()),
    {
        let plan = vec![
            Action::Open {
                path,
                mode: OpenMode { read: true, write: true, create: false, truncate: false },
            },
        ];
        let fallback: Vec<Action> = Vec::new();
        assert(plan@.map_values(|a: Action| a@) =~= Self::opening_plan(path@));
        assert(fallback@.map_values(|a: Action| a@) =~= Seq::empty());
        Session::begin(plan, fallback)
    }

    /// Creates the backend by opening the file at the given path for reading
    /// and writing, and creates the file if it does not exist yet. Only when
    /// the first attempt reports that the file is not there does the session
    /// go on to create it; any other failure ends it. The completion tells
    /// whether the file existed.
    pub fn from_path_or_create<E>(path: String) -> (res: Session<E>)
        ensures
            res@ == SessionView::<E>::start(
                Self::opening_plan(path@),
                Self::creating_plan(path@),
            ),
    {
        let again = path.clone();
        let plan = vec![
            Action::Open {
                path,
                mode: OpenMode { read: true, write: true, create: false, truncate: false },
            },
        ];
        let fallback = vec![
            Action::Open {
                path: again,
                mode: OpenMode { read: true, write: true, create: true, truncate: false },
            },
        ];
        assert(plan@.map_values(|a: Action| a@) =~= Self::opening_plan(path@));
        assert(fallback@.map_values(|a: Action| a@) =~= Self::creating_plan(path@));
        Session::begin(plan, fallback)
    }

    /// Reads all that the file holds: back to the start, then to the end. The
    /// cursor is left at the end.
    pub fn read<E>(&self) -> (res: Session<E>)
        ensures
            res@ == SessionView::<E>::start(Self::reading_plan(), Seq::empty()),
    {
        let plan = vec![Action::Rewind, Action::ReadToEnd];
        let fallback: Vec<Action> = Vec::new();
        assert(plan@.map_values(|a: Action| a@) =~= Self::reading_plan());
        assert(fallback@.map_values(|a: Action| a@) =~= Seq::empty());
        Session::begin(plan, fallback)
    }

    /// Overwrites the file with `data`: back to the start, cut the file to
    /// nothing, write, and force the bytes onto stable storage.
    pub fn write<E>(&self, data: Vec<u8>) -> (res: Session<E>)
        ensures
            res@ == SessionView::<E>::start(Self::writing_plan(data@), Seq::empty()),
    {
        let plan = vec![Action::Rewind, Action::Truncate, Action::WriteAll { data }, Action::Sync];
        let fallback: Vec<Action> = Vec::new();
        assert(plan@.map_values(|a: Action| a@) =~= Self::writing_plan(data@));
        assert(fallback@.map_values(|a: Action| a@) =~= Seq::empty());
        Session::begin(plan, fallback)
    }
}

} // verus!
