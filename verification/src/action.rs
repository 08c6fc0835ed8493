//! The vocabulary between the library and whoever performs its I/O.
//!
//! The library decides what is done to the file system and in which order; it
//! never touches the file system itself. It hands out [`Action`]s, one at a
//! time, and is told of each what came of it in an [`Event`]. All actions but
//! `Open` and `Rename` work on the one handle that is open at the time.

use vstd::prelude::*;

verus! {

/// How a file is opened.
#[derive(Debug, Clone, Copy, PartialEq, Eq, Structural)]
pub struct OpenMode {
    /// The handle can be read from.
    pub read: bool,
    /// The handle can be written to.
    pub write: bool,
    /// A missing file is created, empty.
    pub create: bool,
    /// An existing file is emptied.
    pub truncate: bool,
}

impl OpenMode {
    /// Reading and writing a file that must be there.
    pub open spec fn existing() -> OpenMode {
        OpenMode { read: true, write: true, create: false, truncate: false }
    }

    /// Reading and writing a file that is created if it is not there.
    pub open spec fn create_if_missing() -> OpenMode {
        OpenMode { read: true, write: true, create: true, truncate: false }
    }

    /// Reading a file that must be there.
    pub open spec fn read_only() -> OpenMode {
        OpenMode { read: true, write: false, create: false, truncate: false }
    }

    /// Writing a file from its start, whether it was there or not.
    pub open spec fn replace() -> OpenMode {
        OpenMode { read: false, write: true, create: true, truncate: true }
    }
}

/// One request to the I/O layer.
#[derive(Debug, PartialEq, Eq)]
pub enum Action {
    /// Open the file at `path`; the handle becomes the open handle.
    Open { path: String, mode: OpenMode },
    /// Move the open handle's cursor to the start of its file.
    Rewind,
    /// Cut the open handle's file down to length zero.
    Truncate,
    /// Read from the cursor to the end of the file.
    ReadToEnd,
    /// Write all of `data` at the cursor.
    WriteAll { data: Vec<u8> },
    /// Force what was written through the open handle onto stable storage.
    Sync,
    /// Close the open handle.
    Close,
    /// Move the file at `from` to `to` in one step, replacing what was there.
    Rename { from: String, to: String },
}

/// An [`Action`] as contracts see it.
pub enum ActionView {
    Open { path: Seq<char>, mode: OpenMode },
    Rewind,
    Truncate,
    ReadToEnd,
    WriteAll { data: Seq<u8> },
    Sync,
    Close,
    Rename { from: Seq<char>, to: Seq<char> },
}

impl View for Action {
    type V = ActionView;

    open spec fn view(&self) -> ActionView {
        match *self {
            Action::Open { path, mode } => ActionView::Open { path: path@, mode },
            Action::Rewind => ActionView::Rewind,
            Action::Truncate => ActionView::Truncate,
            Action::ReadToEnd => ActionView::ReadToEnd,
            Action::WriteAll { data } => ActionView::WriteAll { data: data@ },
            Action::Sync => ActionView::Sync,
            Action::Close => ActionView::Close,
            Action::Rename { from, to } => ActionView::Rename { from: from@, to: to@ },
        }
    }
}

/// What the I/O layer reports of the action it was asked for.
#[derive(Debug)]
pub enum Event<E> {
    /// The action succeeded. `bytes` is what a `ReadToEnd` read, and empty
    /// after any other action.
    Done { bytes: Vec<u8> },
    /// The action failed with `error`. `not_found` tells whether it failed
    /// because the file is not there.
    Failed { not_found: bool, error: E },
}

/// An [`Event`] as contracts see it.
pub enum EventView<E> {
    Done { bytes: Seq<u8> },
    Failed { not_found: bool, error: E },
}

impl<E> View for Event<E> {
    type V = EventView<E>;

    open spec fn view(&self) -> EventView<E> {
        match *self {
            Event::Done { bytes } => EventView::Done { bytes: bytes@ },
            Event::Failed { not_found, error } => EventView::Failed { not_found, error },
        }
    }
}

} // verus!
