//! The backend that keeps only a path and opens the file when it needs it.
//!
//! A write goes to a sibling file first, the path with `.tmp` appended, which
//! is made durable and then renamed over the real file. Until the rename the
//! real file is untouched; a write that fails before it may leave the sibling
//! behind. The directory entry is not made durable, and a symbolic link at
//! either path is followed.

use vstd::prelude::*;
use vstd::string::*;
use crate::action::{Action, ActionView, OpenMode};
use crate::session::{Session, SessionView};

verus! {

/// A file-path-backed backend. It does not keep the file open.
#[derive(Debug, PartialEq, Eq)]
pub struct FilePath {
    path: String,
}

impl View for FilePath {
    type V = Seq<char>;

    closed spec fn view(&self) -> Seq<char> {
        self.path@
    }
}

impl FilePath {
    /// The path of the file that a write to `path` fills before it renames it.
    pub open spec fn temporary(path: Seq<char>) -> Seq<char> {
        path + seq!['.', 't', 'm', 'p']
    }

    /// The plan that checks that the file at `path` can be opened, with `mode`.
    pub open spec fn probing_plan(path: Seq<char>, mode: OpenMode) -> Seq<ActionView> {
        seq![ActionView::Open { path, mode }, ActionView::Close]
    }

    /// The plan that reads the whole file at `path`.
    pub open spec fn reading_plan(path: Seq<char>) -> Seq<ActionView> {
        seq![
            ActionView::Open { path, mode: OpenMode::read_only() },
            ActionView::ReadToEnd,
            ActionView::Close,
        ]
    }

    /// The plan that replaces the file at `path` by one that holds `data`.
    pub open spec fn writing_plan(path: Seq<char>, data: Seq<u8>) -> Seq<ActionView> {
        seq![
            ActionView::Open { path: Self::temporary(path), mode: OpenMode::replace() },
            ActionView::WriteAll { data },
            ActionView::Sync,
            ActionView::Close,
            ActionView::Rename { from: Self::temporary(path), to: path },
        ]
    }

    /// Creates the backend by ensuring that the file at the given path can be
    /// opened for reading and writing. The backend is good once the session
    /// has succeeded.
    pub fn from_path<E>(path: String) -> (res: (Self, Session<E>))
        ensures
            res.0@ == path@,
            res.1@ == SessionView::<E>::start(
                Self::probing_plan(path@, OpenMode::existing()),
                Seq::empty(),
            ),
    {
        let backend = FilePath { path: path.clone() };
        let plan = vec![
            Action::Open {
                path,
                mode: OpenMode { read: true, write: true, create: false, truncate: false },
            },
            Action::Close,
        ];
        let fallback: Vec<Action> = Vec::new();
        assert(plan@.map_values(|a: Action| a@) =~= Self::probing_plan(
            path@,
            OpenMode::existing(),
        ));
        assert(fallback@.map_values(|a: Action| a@) =~= Seq::empty());
        (backend, Session::begin(plan, fallback))
    }

    /// Creates the backend by ensuring that the file at the given path can be
    /// opened for reading and writing, and creates the file if it does not
    /// exist yet. Only when the first attempt reports that the file is not
    /// there does the session go on to create it. The completion tells whether
    /// the file existed.
    pub fn from_path_or_create<E>(path: String) -> (res: (Self, Session<E>))
        ensures
            res.0@ == path@,
            res.1@ == SessionView::<E>::start(
                Self::probing_plan(path@, OpenMode::existing()),
                Self::probing_plan(path@, OpenMode::create_if_missing()),
            ),
    {
        let backend = FilePath { path: path.clone() };
        let again = path.clone();
        let plan = vec![
            Action::Open {
                path,
                mode: OpenMode { read: true, write: true, create: false, truncate: false },
            },
            Action::Close,
        ];
        let fallback = vec![
            Action::Open {
                path: again,
                mode: OpenMode { read: true, write: true, create: true, truncate: false },
            },
            Action::Close,
        ];
        assert(plan@.map_values(|a: Action| a@) =~= Self::probing_plan(
            path@,
            OpenMode::existing(),
        ));
        assert(fallback@.map_values(|a: Action| a@) =~= Self::probing_plan(
            path@,
            OpenMode::create_if_missing(),
        ));
        (backend, Session::begin(plan, fallback))
    }

    /// The path of the backend's file.
    pub fn path(&self) -> (res: &String)
        ensures
            res@ == self@,
    {
        &self.path
    }

    /// The path of the file that a write fills first: the backend's path with
    /// `.tmp` appended.
    pub fn temporary_path(&self) -> (res: String)
        ensures
            res@ == Self::temporary(self@),
    {
        let mut name = self.path.clone();
        name.append(".tmp");
        proof {
            reveal_strlit(".tmp");
        }
        name
    }

    /// Reads all that the file holds: open it for reading, read to the end,
    /// close it. The file is neither created nor changed.
    pub fn read<E>(&self) -> (res: Session<E>)
        ensures
            res@ == SessionView::<E>::start(Self::reading_plan(self@), Seq::empty()),
    {
        let plan = vec![
            Action::Open {
                path: self.path.clone(),
                mode: OpenMode { read: true, write: false, create: false, truncate: false },
            },
            Action::ReadToEnd,
            Action::Close,
        ];
        let fallback: Vec<Action> = Vec::new();
        assert(plan@.map_values(|a: Action| a@) =~= Self::reading_plan(self@));
        assert(fallback@.map_values(|a: Action| a@) =~= Seq::empty());
        Session::begin(plan, fallback)
    }

    /// Replaces the file by one that holds `data`: write `data` to the
    /// temporary file, force it onto stable storage, close it, and rename it
    /// over the backend's file.
    pub fn write<E>(&self, data: Vec<u8>) -> (res: Session<E>)
        ensures
            res@ == SessionView::<E>::start(Self::writing_plan(self@, data@), Seq::empty()),
    {
        let plan = vec![
            Action::Open {
                path: self.temporary_path(),
                mode: OpenMode { read: false, write: true, create: true, truncate: true },
            },
            Action::WriteAll { data },
            Action::Sync,
            Action::Close,
            Action::Rename { from: self.temporary_path(), to: self.path.clone() },
        ];
        let fallback: Vec<Action> = Vec::new();
        assert(plan@.map_values(|a: Action| a@) =~= Self::writing_plan(self@, data@));
        assert(fallback@.map_values(|a: Action| a@) =~= Seq::empty());
        Session::begin(plan, fallback)
    }
}

} // verus!
