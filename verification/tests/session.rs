use koit::action::{Action, Event, OpenMode};
use koit::file::File;
use koit::file_path::FilePath;
use koit::session::Session;

const EXISTING: OpenMode = OpenMode { read: true, write: true, create: false, truncate: false };
const CREATE: OpenMode = OpenMode { read: true, write: true, create: true, truncate: false };
const READ_ONLY: OpenMode = OpenMode { read: true, write: false, create: false, truncate: false };
const REPLACE: OpenMode = OpenMode { read: false, write: true, create: true, truncate: true };

fn done<E>() -> Event<E> {
    Event::Done { bytes: Vec::new() }
}

fn failed(not_found: bool, error: &'static str) -> Event<&'static str> {
    Event::Failed { not_found, error }
}

fn open(path: &str, mode: OpenMode) -> Action {
    Action::Open { path: path.to_string(), mode }
}

/// The actions that a session asks for when every one of them succeeds.
fn plan_of(mut session: Session<&'static str>) -> Vec<Action> {
    let mut plan = Vec::new();
    loop {
        let action = match session.pending() {
            None => break,
            Some(Action::Open { path, mode }) => Action::Open { path: path.clone(), mode: *mode },
            Some(Action::Rewind) => Action::Rewind,
            Some(Action::Truncate) => Action::Truncate,
            Some(Action::ReadToEnd) => Action::ReadToEnd,
            Some(Action::WriteAll { data }) => Action::WriteAll { data: data.clone() },
            Some(Action::Sync) => Action::Sync,
            Some(Action::Close) => Action::Close,
            Some(Action::Rename { from, to }) => {
                Action::Rename { from: from.clone(), to: to.clone() }
            }
        };
        plan.push(action);
        session.advance(done());
    }
    assert!(session.finish().unwrap().is_ok());
    plan
}

#[test]
fn temporary_path_appends_tmp() {
    let (backend, _probe) = FilePath::from_path::<&'static str>("db.json".to_string());
    assert_eq!(backend.path(), "db.json");
    assert_eq!(backend.temporary_path(), "db.json.tmp");
    let (backend, _probe) = FilePath::from_path::<&'static str>(String::new());
    assert_eq!(backend.temporary_path(), ".tmp");
    let (backend, _probe) = FilePath::from_path::<&'static str>("dir/d\u{e9}.tmp".to_string());
    assert_eq!(backend.temporary_path(), "dir/d\u{e9}.tmp.tmp");
}

#[test]
fn path_write_plan_is_the_replace_protocol() {
    let (backend, _probe) = FilePath::from_path::<&'static str>("db".to_string());
    assert_eq!(
        plan_of(backend.write(vec![1, 2, 3])),
        vec![
            open("db.tmp", REPLACE),
            Action::WriteAll { data: vec![1, 2, 3] },
            Action::Sync,
            Action::Close,
            Action::Rename { from: "db.tmp".to_string(), to: "db".to_string() },
        ]
    );
}

#[test]
fn path_read_plan_opens_reads_and_closes() {
    let (backend, _probe) = FilePath::from_path::<&'static str>("db".to_string());
    assert_eq!(
        plan_of(backend.read()),
        vec![open("db", READ_ONLY), Action::ReadToEnd, Action::Close]
    );
}

#[test]
fn path_probe_plan_opens_and_closes() {
    let (backend, probe) = FilePath::from_path::<&'static str>("db".to_string());
    assert_eq!(backend.path(), "db");
    assert_eq!(plan_of(probe), vec![open("db", EXISTING), Action::Close]);
    let (backend, probe) = FilePath::from_path_or_create::<&'static str>("db".to_string());
    assert_eq!(backend.path(), "db");
    assert_eq!(plan_of(probe), vec![open("db", EXISTING), Action::Close]);
}

#[test]
fn handle_plans() {
    assert_eq!(plan_of(File::from_path("db".to_string())), vec![open("db", EXISTING)]);
    assert_eq!(
        plan_of(File::from_path_or_create("db".to_string())),
        vec![open("db", EXISTING)]
    );
    assert_eq!(plan_of(File.read()), vec![Action::Rewind, Action::ReadToEnd]);
    assert_eq!(
        plan_of(File.write(vec![8, 9])),
        vec![
            Action::Rewind,
            Action::Truncate,
            Action::WriteAll { data: vec![8, 9] },
            Action::Sync,
        ]
    );
}

#[test]
fn session_is_unfinished_while_an_action_is_pending() {
    let session: Session<&'static str> = File.read();
    assert!(session.pending().is_some());
    assert!(session.finish().is_none());

    let mut session: Session<&'static str> = File.read();
    session.advance(done());
    assert_eq!(session.pending(), Some(&Action::ReadToEnd));
    assert!(session.finish().is_none());
}

#[test]
fn session_hands_back_what_was_read() {
    let mut session: Session<&'static str> = File.read();
    // Bytes that come with another action than the read are dropped.
    session.advance(Event::Done { bytes: vec![7, 7] });
    session.advance(Event::Done { bytes: vec![1, 2, 3] });
    assert_eq!(session.pending(), None);
    let completion = session.finish().unwrap().unwrap();
    assert_eq!(completion.bytes, vec![1, 2, 3]);
    assert!(completion.existed);
}

#[test]
fn path_read_keeps_the_bytes_over_the_close() {
    let (backend, _probe) = FilePath::from_path::<&'static str>("db".to_string());
    let mut session: Session<&'static str> = backend.read();
    session.advance(done());
    session.advance(Event::Done { bytes: vec![4, 5] });
    assert_eq!(session.pending(), Some(&Action::Close));
    session.advance(Event::Done { bytes: vec![6] });
    assert_eq!(session.finish().unwrap().unwrap().bytes, vec![4, 5]);
}

#[test]
fn finished_session_ignores_events() {
    let mut session: Session<&'static str> = File.read();
    session.advance(done());
    session.advance(Event::Done { bytes: vec![1] });
    session.advance(failed(true, "late"));
    session.advance(Event::Done { bytes: vec![2] });
    assert_eq!(session.pending(), None);
    assert_eq!(session.finish().unwrap().unwrap().bytes, vec![1]);

    let mut session: Session<&'static str> = File.read();
    session.advance(failed(false, "first"));
    session.advance(failed(false, "second"));
    session.advance(done());
    assert_eq!(session.finish().unwrap().unwrap_err(), "first");
}

#[test]
fn open_or_create_falls_back_only_when_the_file_is_missing() {
    // Missing: the second attempt creates the file.
    let mut session = File::from_path_or_create("db".to_string());
    assert_eq!(session.pending(), Some(&open("db", EXISTING)));
    session.advance(failed(true, "missing"));
    assert_eq!(session.pending(), Some(&open("db", CREATE)));
    session.advance(done());
    assert_eq!(session.pending(), None);
    assert!(!session.finish().unwrap().unwrap().existed);

    // Any other failure ends the session with that failure.
    let mut session = File::from_path_or_create("db".to_string());
    session.advance(failed(false, "denied"));
    assert_eq!(session.pending(), None);
    assert_eq!(session.finish().unwrap().unwrap_err(), "denied");

    // There: no second attempt.
    let mut session: Session<&'static str> = File::from_path_or_create("db".to_string());
    session.advance(done());
    assert_eq!(session.pending(), None);
    assert!(session.finish().unwrap().unwrap().existed);
}

#[test]
fn open_or_create_falls_back_once() {
    let mut session = File::from_path_or_create("db".to_string());
    session.advance(failed(true, "missing"));
    session.advance(failed(true, "still missing"));
    assert_eq!(session.pending(), None);
    assert_eq!(session.finish().unwrap().unwrap_err(), "still missing");

    let (_backend, mut session) = FilePath::from_path_or_create("db".to_string());
    session.advance(failed(true, "missing"));
    assert_eq!(session.pending(), Some(&open("db", CREATE)));
    session.advance(failed(false, "denied"));
    assert_eq!(session.pending(), None);
    assert_eq!(session.finish().unwrap().unwrap_err(), "denied");
}

#[test]
fn path_open_or_create_probes_and_closes() {
    let (_backend, mut session) = FilePath::from_path_or_create("db".to_string());
    session.advance(failed(true, "missing"));
    assert_eq!(session.pending(), Some(&open("db", CREATE)));
    session.advance(done());
    assert_eq!(session.pending(), Some(&Action::Close));
    session.advance(done());
    assert!(!session.finish().unwrap().unwrap().existed);

    let (_backend, mut session) = FilePath::from_path_or_create("db".to_string());
    session.advance(failed(false, "denied"));
    assert_eq!(session.finish().unwrap().unwrap_err(), "denied");
}

#[test]
fn plain_open_does_not_fall_back() {
    let mut session = File::from_path("db".to_string());
    session.advance(failed(true, "missing"));
    assert_eq!(session.pending(), None);
    assert_eq!(session.finish().unwrap().unwrap_err(), "missing");

    let (_backend, mut session) = FilePath::from_path("db".to_string());
    session.advance(failed(true, "missing"));
    assert_eq!(session.pending(), None);
    assert_eq!(session.finish().unwrap().unwrap_err(), "missing");
}

#[test]
fn not_found_after_the_first_action_is_a_plain_failure() {
    let (_backend, mut session) = FilePath::from_path_or_create("db".to_string());
    session.advance(done());
    session.advance(failed(true, "odd"));
    assert_eq!(session.pending(), None);
    assert_eq!(session.finish().unwrap().unwrap_err(), "odd");

    let (backend, _probe) = FilePath::from_path::<&'static str>("db".to_string());
    let mut session = backend.read();
    session.advance(done());
    session.advance(failed(true, "gone"));
    assert_eq!(session.pending(), Some(&Action::Close));
    session.advance(done());
    assert_eq!(session.finish().unwrap().unwrap_err(), "gone");
}

#[test]
fn failed_path_write_closes_its_handle_and_never_renames() {
    for failing in 1..4usize {
        let (backend, _probe) = FilePath::from_path::<&'static str>("db".to_string());
        let mut session = backend.write(vec![1]);
        for _ in 0..failing {
            session.advance(done());
        }
        let closing = matches!(session.pending(), Some(Action::Close));
        session.advance(failed(false, "broken"));
        if closing {
            // The close itself failed: nothing is left to release.
            assert_eq!(session.pending(), None);
        } else {
            assert_eq!(session.pending(), Some(&Action::Close));
            assert!(session.finish().is_none());
            let (backend, _probe) = FilePath::from_path::<&'static str>("db".to_string());
            session = backend.write(vec![1]);
            for _ in 0..failing {
                session.advance(done());
            }
            session.advance(failed(false, "broken"));
            session.advance(done());
            assert_eq!(session.pending(), None);
        }
        assert_eq!(session.finish().unwrap().unwrap_err(), "broken");
    }
}

#[test]
fn failed_open_leaves_nothing_to_close() {
    let (backend, _probe) = FilePath::from_path::<&'static str>("db".to_string());
    let mut session = backend.write(vec![1]);
    session.advance(failed(false, "no space"));
    assert_eq!(session.pending(), None);
    assert_eq!(session.finish().unwrap().unwrap_err(), "no space");
}

#[test]
fn failed_rename_ends_the_write() {
    let (backend, _probe) = FilePath::from_path::<&'static str>("db".to_string());
    let mut session = backend.write(vec![1]);
    for _ in 0..4 {
        session.advance(done());
    }
    assert_eq!(
        session.pending(),
        Some(&Action::Rename { from: "db.tmp".to_string(), to: "db".to_string() })
    );
    session.advance(failed(false, "cross-device"));
    assert_eq!(session.pending(), None);
    assert_eq!(session.finish().unwrap().unwrap_err(), "cross-device");
}

#[test]
fn failed_handle_write_keeps_the_handle() {
    for failing in 0..4usize {
        let mut session = File.write(vec![1, 2]);
        for _ in 0..failing {
            session.advance(done());
        }
        session.advance(failed(false, "broken"));
        // The handle is the backend's, not the session's: no close is asked for.
        assert_eq!(session.pending(), None);
        assert_eq!(session.finish().unwrap().unwrap_err(), "broken");
    }
}

#[test]
fn release_reports_the_first_error() {
    let (backend, _probe) = FilePath::from_path::<&'static str>("db".to_string());
    let mut session = backend.read();
    session.advance(done());
    session.advance(failed(false, "read failed"));
    assert_eq!(session.pending(), Some(&Action::Close));
    session.advance(failed(false, "close failed"));
    assert_eq!(session.pending(), None);
    assert_eq!(session.finish().unwrap().unwrap_err(), "read failed");
}
