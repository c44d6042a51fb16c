use cynthia::fs::file::File;
use cynthia::fs::options::{DirBuilder, DirBuilderExt, OpenOptions, OpenOptionsExt};
use cynthia::fs::read_dir::{DirEntry, DirEntryExt, ReadDir};
use cynthia::future::future::{ready, yield_now, zip, Ready, YieldNow, Zip};
use cynthia::future::swap::cursor::Cursor;
use cynthia::future::swap::traits::{AsyncRead, AsyncSeek};
use cynthia::future::swap::vectored::AsyncReadVectored;
use cynthia::io::stream::SeekFrom;
use cynthia::io::{Error, ErrorKind};
use cynthia::task::{Context, Poll, Waker};

fn context() -> Context {
    Context::from_waker(Waker { id: 1 })
}

fn done<T>(r: Poll<Result<T, Error>>) -> T {
    match r {
        Poll::Ready(Ok(value)) => value,
        _ => panic!("not done"),
    }
}

#[test]
fn file_writes_where_the_reader_is() {
    let mut cx = context();
    let mut file = File::new(Cursor::new(vec![1u8, 2, 3, 4]), false);
    let mut buf = [0; 2];
    assert_eq!(done(file.poll_read(&mut cx, &mut buf)), 2);
    assert_eq!(buf, [1, 2]);
    assert!(matches!(file.read_pos, Some(Ok(2))));
    // As if more had been read ahead of what was asked for.
    file.unblock.set_position(4);
    assert_eq!(done(file.poll_write(&mut cx, &[9])), 1);
    assert_eq!(file.unblock.get_ref(), &vec![1, 2, 9, 4]);
    assert!(file.is_dirty);
    assert!(file.read_pos.is_none());
    done(file.poll_flush(&mut cx));
    assert!(!file.is_dirty);
    done(file.poll_close(&mut cx));
}

#[test]
fn file_goes_to_a_position() {
    let mut cx = context();
    let mut file = File::new(Cursor::new(vec![1u8, 2, 3, 4]), false);
    let mut buf = [0; 1];
    assert_eq!(done(file.poll_read(&mut cx, &mut buf)), 1);
    file.unblock.set_position(3);
    assert_eq!(done(file.poll_seek(&mut cx, SeekFrom::Current(1))), 2);
    assert_eq!(done(file.poll_read(&mut cx, &mut buf)), 1);
    assert_eq!(buf, [3]);
    let failed = file.poll_seek(&mut cx, SeekFrom::Current(-9));
    assert!(matches!(failed, Poll::Ready(Err(e)) if e.kind() == ErrorKind::InvalidInput));
}

type Entry = Option<Result<u8, Error>>;

fn next(mut inner: Vec<u8>) -> Ready<(Vec<u8>, Entry)> {
    let entry = inner.pop().map(Ok);
    ready((inner, entry))
}

#[test]
fn directory_gives_its_entries() {
    let mut cx = context();
    let mut dir: ReadDir<Vec<u8>, Ready<(Vec<u8>, Entry)>> = ReadDir::new(vec![2, 1]);
    assert!(matches!(dir.poll_next(&mut cx, next), Poll::Ready(Some(Ok(1)))));
    assert!(matches!(dir.poll_next(&mut cx, next), Poll::Ready(Some(Ok(2)))));
    assert!(matches!(dir.poll_next(&mut cx, next), Poll::Ready(None)));
}

#[test]
fn directory_waits_for_its_entry() {
    let mut cx = context();
    let mut dir: ReadDir<(), Zip<YieldNow, Ready<Entry>>> = ReadDir::new(());
    let start = |_: ()| zip(yield_now(), ready(Some(Ok(7))));
    assert!(dir.poll_next(&mut cx, start).is_pending());
    assert!(matches!(dir.poll_next(&mut cx, start), Poll::Ready(Some(Ok(7)))));
    assert!(dir.poll_next(&mut cx, start).is_pending());
}

#[test]
fn entry_of_a_directory() {
    let entry = DirEntry { path: b"a/\xff".to_vec(), file_name: b"\xff".to_vec(), ino: 5 };
    assert_eq!(entry.path(), b"a/\xff");
    assert_eq!(entry.file_name(), b"\xff");
    assert_eq!(entry.ino(), 5);
}

#[test]
fn options_are_kept() {
    let mut options = OpenOptions::new();
    options.read(true).write(true).create(true).mode(0o600).custom_flags(7);
    assert!(options.read && options.write && options.create);
    assert!(!options.append && !options.truncate && !options.create_new);
    assert_eq!((options.mode, options.custom_flags), (Some(0o600), Some(7)));
    options.append(true).truncate(true).create_new(true).read(false);
    assert!(options.append && options.truncate && options.create_new && !options.read);
    let mut dir = DirBuilder::new();
    assert!(!dir.recursive);
    assert_eq!(dir.mode, None);
    dir.recursive(true).mode(0o700);
    assert!(dir.recursive);
    assert_eq!(dir.mode, Some(0o700));
}

#[test]
fn file_is_read_into_the_first_buffer() {
    let mut cx = context();
    let mut file = File::new(Cursor::new(vec![1u8, 2, 3, 4]), false);
    let mut bufs = vec![vec![], vec![0; 3], vec![0; 3]];
    assert_eq!(done(file.poll_read_vectored(&mut cx, &mut bufs)), 3);
    assert_eq!(bufs, vec![vec![], vec![1, 2, 3], vec![0, 0, 0]]);
    assert!(matches!(file.read_pos, Some(Ok(3))));
}
