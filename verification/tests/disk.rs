use koit::action::{Action, Event};
use koit::file::File;
use koit::file_path::FilePath;
use koit::session::{Completion, Session};

use tokio::io::{AsyncReadExt, AsyncSeekExt, AsyncWriteExt};

async fn perform(action: &Action, slot: &mut Option<tokio::fs::File>) -> std::io::Result<Vec<u8>> {
    let mut bytes = Vec::new();
    match action {
        Action::Open { path, mode } => {
            let file = tokio::fs::OpenOptions::new()
                .read(mode.read)
                .write(mode.write)
                .create(mode.create)
                .truncate(mode.truncate)
                .open(path)
                .await?;
            *slot = Some(file);
        }
        Action::Close => {
            *slot = None;
        }
        Action::Rename { from, to } => {
            tokio::fs::rename(from, to).await?;
        }
        other => {
            let file = slot.as_mut().expect("a handle is open");
            match other {
                Action::Rewind => {
                    file.seek(std::io::SeekFrom::Start(0)).await?;
                }
                Action::Truncate => file.set_len(0).await?,
                Action::ReadToEnd => {
                    file.read_to_end(&mut bytes).await?;
                }
                Action::WriteAll { data } => file.write_all(data).await?,
                Action::Sync => file.sync_all().await?,
                _ => unreachable!(),
            }
        }
    }
    Ok(bytes)
}

async fn drive(
    mut session: Session<std::io::Error>,
    slot: &mut Option<tokio::fs::File>,
) -> Result<Completion, std::io::Error> {
    while let Some(action) = session.pending() {
        let event = match perform(action, slot).await {
            Ok(bytes) => Event::Done { bytes },
            Err(error) => Event::Failed {
                not_found: error.kind() == std::io::ErrorKind::NotFound,
                error,
            },
        };
        session.advance(event);
    }
    session.finish().unwrap()
}

fn runtime() -> tokio::runtime::Runtime {
    tokio::runtime::Builder::new_current_thread().build().unwrap()
}

async fn scratch(name: &str) -> String {
    let path = format!("/tmp/koit-disk-test-{}", name);
    let _ = tokio::fs::remove_file(&path).await;
    let _ = tokio::fs::remove_file(format!("{}.tmp", path)).await;
    path
}

async fn is_there(path: &str) -> bool {
    tokio::fs::metadata(path).await.is_ok()
}

#[test]
fn path_backend_creates_writes_and_reopens() {
    runtime().block_on(async {
        let path = scratch("path-backend").await;
        let (backend, probe) = FilePath::from_path_or_create(path.clone());
        let done = drive(probe, &mut None).await.unwrap();
        assert!(!done.existed);
        assert_eq!(tokio::fs::read(&path).await.unwrap(), Vec::<u8>::new());
        assert_eq!(drive(backend.read(), &mut None).await.unwrap().bytes, Vec::<u8>::new());

        let data = vec![0u8, 1, 2, 3, 4, 5, 6, 7, 8, 9];
        drive(backend.write(data.clone()), &mut None).await.unwrap();

        let (reopened, probe) = FilePath::from_path_or_create(path.clone());
        assert!(drive(probe, &mut None).await.unwrap().existed);
        assert_eq!(drive(reopened.read(), &mut None).await.unwrap().bytes, data);
        assert!(!is_there(&format!("{}.tmp", path)).await);
        let _ = tokio::fs::remove_file(&path).await;
    });
}

#[test]
fn path_backend_open_or_create_leaves_existing_file_alone() {
    runtime().block_on(async {
        let path = scratch("path-existing").await;
        tokio::fs::write(&path, b"kept").await.unwrap();
        let (backend, probe) = FilePath::from_path_or_create(path.clone());
        assert!(drive(probe, &mut None).await.unwrap().existed);
        assert_eq!(tokio::fs::read(&path).await.unwrap(), b"kept".to_vec());
        assert_eq!(drive(backend.read(), &mut None).await.unwrap().bytes, b"kept".to_vec());
        let _ = tokio::fs::remove_file(&path).await;
    });
}

#[test]
fn path_backend_from_path_needs_the_file() {
    runtime().block_on(async {
        let path = scratch("path-missing").await;
        let (_backend, probe) = FilePath::from_path(path.clone());
        let error = drive(probe, &mut None).await.unwrap_err();
        assert_eq!(error.kind(), std::io::ErrorKind::NotFound);
        assert!(!is_there(&path).await);

        tokio::fs::write(&path, b"here").await.unwrap();
        let (backend, probe) = FilePath::from_path(path.clone());
        let mut slot = None;
        assert!(drive(probe, &mut slot).await.unwrap().existed);
        assert!(slot.is_none());
        assert_eq!(backend.path(), &path);
        assert_eq!(tokio::fs::read(&path).await.unwrap(), b"here".to_vec());
        let _ = tokio::fs::remove_file(&path).await;
    });
}

#[test]
fn path_backend_write_is_the_same_twice() {
    runtime().block_on(async {
        let path = scratch("path-twice").await;
        tokio::fs::write(&path, b"a longer text that is replaced").await.unwrap();
        let (backend, probe) = FilePath::from_path(path.clone());
        drive(probe, &mut None).await.unwrap();
        drive(backend.write(b"short".to_vec()), &mut None).await.unwrap();
        assert_eq!(tokio::fs::read(&path).await.unwrap(), b"short".to_vec());
        drive(backend.write(b"short".to_vec()), &mut None).await.unwrap();
        assert_eq!(tokio::fs::read(&path).await.unwrap(), b"short".to_vec());
        assert!(!is_there(&format!("{}.tmp", path)).await);
        let _ = tokio::fs::remove_file(&path).await;
    });
}

#[test]
fn path_backend_read_of_missing_file_fails_and_creates_nothing() {
    runtime().block_on(async {
        let path = scratch("path-read-missing").await;
        let (backend, _probe) = FilePath::from_path::<std::io::Error>(path.clone());
        let error = drive(backend.read(), &mut None).await.unwrap_err();
        assert_eq!(error.kind(), std::io::ErrorKind::NotFound);
        assert!(!is_there(&path).await);
    });
}

#[test]
fn path_backend_write_stops_at_the_temporary_file() {
    runtime().block_on(async {
        // The temporary path is a directory, so the first action fails; the
        // file itself is never touched.
        let path = scratch("path-blocked").await;
        let _ = tokio::fs::remove_dir(format!("{}.tmp", path)).await;
        tokio::fs::write(&path, b"old").await.unwrap();
        tokio::fs::create_dir(format!("{}.tmp", path)).await.unwrap();
        let (backend, _probe) = FilePath::from_path::<std::io::Error>(path.clone());
        let mut slot = None;
        assert!(drive(backend.write(b"new".to_vec()), &mut slot).await.is_err());
        assert!(slot.is_none());
        assert_eq!(tokio::fs::read(&path).await.unwrap(), b"old".to_vec());
        let _ = tokio::fs::remove_dir(format!("{}.tmp", path)).await;
        let _ = tokio::fs::remove_file(&path).await;
    });
}

#[test]
fn path_backend_write_cut_short_before_the_rename() {
    runtime().block_on(async {
        let path = scratch("path-cut-short").await;
        tokio::fs::write(&path, b"old contents").await.unwrap();
        let (backend, _probe) = FilePath::from_path::<std::io::Error>(path.clone());
        let mut session: Session<std::io::Error> = backend.write(b"new".to_vec());
        let mut slot = None;
        // Open, write, sync, close: all but the rename.
        for _ in 0..4 {
            let bytes = perform(session.pending().unwrap(), &mut slot).await.unwrap();
            session.advance(Event::Done { bytes });
            assert_eq!(tokio::fs::read(&path).await.unwrap(), b"old contents".to_vec());
        }
        assert!(slot.is_none());
        assert!(matches!(session.pending(), Some(Action::Rename { .. })));
        assert_eq!(tokio::fs::read(backend.temporary_path()).await.unwrap(), b"new".to_vec());
        drop(session);

        // The next write takes the leftover in its stride.
        drive(backend.write(b"newer".to_vec()), &mut None).await.unwrap();
        assert_eq!(tokio::fs::read(&path).await.unwrap(), b"newer".to_vec());
        assert!(!is_there(&backend.temporary_path()).await);
        let _ = tokio::fs::remove_file(&path).await;
    });
}

#[test]
fn path_backend_write_creates_a_missing_file() {
    runtime().block_on(async {
        let path = scratch("path-write-missing").await;
        let (backend, _probe) = FilePath::from_path::<std::io::Error>(path.clone());
        drive(backend.write(Vec::new()), &mut None).await.unwrap();
        assert_eq!(tokio::fs::read(&path).await.unwrap(), Vec::<u8>::new());
        drive(backend.write(vec![255u8; 70_000]), &mut None).await.unwrap();
        assert_eq!(drive(backend.read(), &mut None).await.unwrap().bytes, vec![255u8; 70_000]);
        assert!(!is_there(&backend.temporary_path()).await);
        let _ = tokio::fs::remove_file(&path).await;
    });
}

#[test]
fn open_handle_backend_creates_writes_and_reads() {
    runtime().block_on(async {
        let path = scratch("handle-backend").await;
        let mut slot = None;
        let done = drive(File::from_path_or_create(path.clone()), &mut slot).await.unwrap();
        assert!(!done.existed);
        assert!(slot.is_some());
        assert_eq!(tokio::fs::read(&path).await.unwrap(), Vec::<u8>::new());

        let backend = File;
        assert_eq!(drive(backend.read(), &mut slot).await.unwrap().bytes, Vec::<u8>::new());
        drive(backend.write(b"first and long".to_vec()), &mut slot).await.unwrap();
        assert_eq!(drive(backend.read(), &mut slot).await.unwrap().bytes, b"first and long".to_vec());
        // The cursor is at the end now; the next write starts over all the same.
        drive(backend.write(b"second".to_vec()), &mut slot).await.unwrap();
        assert_eq!(tokio::fs::read(&path).await.unwrap(), b"second".to_vec());
        assert_eq!(drive(backend.read(), &mut slot).await.unwrap().bytes, b"second".to_vec());
        assert_eq!(drive(backend.read(), &mut slot).await.unwrap().bytes, b"second".to_vec());
        assert!(slot.is_some());

        let mut again = None;
        let done = drive(File::from_path_or_create(path.clone()), &mut again).await.unwrap();
        assert!(done.existed);
        assert_eq!(drive(backend.read(), &mut again).await.unwrap().bytes, b"second".to_vec());
        let _ = tokio::fs::remove_file(&path).await;
    });
}

#[test]
fn open_handle_backend_write_is_the_same_twice() {
    runtime().block_on(async {
        let path = scratch("handle-twice").await;
        tokio::fs::write(&path, b"something much longer than what follows").await.unwrap();
        let mut slot = None;
        assert!(drive(File::from_path(path.clone()), &mut slot).await.unwrap().existed);
        drive(File.write(b"brief".to_vec()), &mut slot).await.unwrap();
        assert_eq!(tokio::fs::read(&path).await.unwrap(), b"brief".to_vec());
        drive(File.write(b"brief".to_vec()), &mut slot).await.unwrap();
        assert_eq!(tokio::fs::read(&path).await.unwrap(), b"brief".to_vec());
        assert_eq!(drive(File.read(), &mut slot).await.unwrap().bytes, b"brief".to_vec());
        let _ = tokio::fs::remove_file(&path).await;
    });
}

#[test]
fn open_handle_backend_from_path_needs_the_file() {
    runtime().block_on(async {
        let path = scratch("handle-missing").await;
        let mut slot = None;
        let error = drive(File::from_path(path.clone()), &mut slot).await.unwrap_err();
        assert_eq!(error.kind(), std::io::ErrorKind::NotFound);
        assert!(slot.is_none());
        assert!(!is_there(&path).await);

        tokio::fs::write(&path, b"abc").await.unwrap();
        assert!(drive(File::from_path(path.clone()), &mut slot).await.unwrap().existed);
        assert_eq!(drive(File.read(), &mut slot).await.unwrap().bytes, b"abc".to_vec());
        let _ = tokio::fs::remove_file(&path).await;
    });
}
