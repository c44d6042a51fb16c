use cynthia::future::future::Future;
use cynthia::future::swap::cursor::Cursor;
use cynthia::io::{Error, ErrorKind};
use cynthia::platform::event::Event;
use cynthia::process::child::{
    collect, output, reap, Child, ChildGuard, ExitStatus, Spawned, StatusStep,
};
use cynthia::process::command::{Command, EnvChange, Stdio};
use cynthia::task::{Context, Poll, Wake, Waker};

fn context(id: u64) -> Context {
    Context::from_waker(Waker { id })
}

fn text(s: &str) -> Vec<u8> {
    s.as_bytes().to_vec()
}

type Plain = Child<char, u8, u8, u8>;

fn spawned() -> Spawned<char, u8, u8, u8> {
    Spawned { process: 'p', stdin: Some(Ok(1)), stdout: None, stderr: Some(Ok(3)), watched: Ok(()) }
}

#[test]
fn command_is_built() {
    let mut cmd = Command::new(text("ls"));
    cmd.arg(text("-l")).args(vec![text("a"), text("b")]);
    cmd.env(text("K"), text("V")).env_remove(text("X")).env_clear();
    cmd.envs(vec![(text("A"), text("1")), (text("B"), text("2"))]);
    cmd.current_dir(text("/tmp")).uid(5).gid(6).creation_flags(7);
    assert_eq!(cmd.program, text("ls"));
    assert_eq!(cmd.args, vec![text("-l"), text("a"), text("b")]);
    let envs: Vec<Vec<u8>> = cmd
        .envs
        .iter()
        .map(|change| match change {
            EnvChange::Put(k, v) => [&k[..], b"=", &v[..]].concat(),
            EnvChange::Remove(k) => [b"-", &k[..]].concat(),
            EnvChange::Clear => text("clear"),
        })
        .collect();
    assert_eq!(envs, vec![text("K=V"), text("-X"), text("clear"), text("A=1"), text("B=2")]);
    assert_eq!(cmd.current_dir, Some(text("/tmp")));
    assert_eq!((cmd.uid, cmd.gid, cmd.creation_flags), (Some(5), Some(6), Some(7)));
    assert!(cmd.reap_on_drop && !cmd.kill_on_drop);
}

#[test]
fn streams_that_nobody_chose() {
    let streams = Command::new(text("ls")).spawn();
    assert_eq!((streams.stdin, streams.stdout, streams.stderr), (
        Stdio::Inherit,
        Stdio::Inherit,
        Stdio::Inherit,
    ));
    let streams = Command::new(text("ls")).output();
    assert_eq!((streams.stdin, streams.stdout, streams.stderr), (
        Stdio::Null,
        Stdio::Piped,
        Stdio::Piped,
    ));
    let mut cmd = Command::new(text("ls"));
    cmd.stdin(Stdio::Piped).stdout(Stdio::File(3)).stderr(Stdio::Null);
    let streams = cmd.output();
    assert_eq!((streams.stdin, streams.stdout, streams.stderr), (
        Stdio::Piped,
        Stdio::File(3),
        Stdio::Null,
    ));
}

#[test]
fn child_is_handed_out() {
    let mut cmd = Command::new(text("ls"));
    cmd.kill_on_drop(true).reap_on_drop(false);
    let mut child = Plain::new(&cmd, Ok(spawned())).ok().unwrap();
    assert_eq!((child.stdin, child.stdout, child.stderr), (Some(1), None, Some(3)));
    assert!(child.killed_on_drop());
    assert!(!child.child.reap_on_drop);
    assert_eq!(*child.child.get_mut(), 'p');
    child.status();
    assert_eq!(child.stdin, None);
}

#[test]
fn child_that_is_not_handed_out() {
    let cmd = Command::new(text("ls"));
    let e = Plain::new(&cmd, Err(Error::of(ErrorKind::NotFound))).err().unwrap();
    assert_eq!(e.kind(), ErrorKind::NotFound);
    let mut bad = spawned();
    bad.stderr = Some(Err(Error::of(ErrorKind::Other)));
    bad.watched = Err(Error::of(ErrorKind::PermissionDenied));
    assert_eq!(Plain::new(&cmd, Ok(bad)).err().unwrap().kind(), ErrorKind::Other);
    let mut unwatched = spawned();
    unwatched.watched = Err(Error::of(ErrorKind::PermissionDenied));
    let e = Plain::new(&cmd, Ok(unwatched)).err().unwrap();
    assert_eq!(e.kind(), ErrorKind::PermissionDenied);
}

#[test]
fn zombies_are_seen_to_their_end() {
    let mut zombies = vec!['a', 'b', 'c'];
    assert_eq!(reap(&mut zombies, 0, &Ok(None)), 1);
    assert_eq!(reap(&mut zombies, 1, &Ok(Some(ExitStatus { raw: 0 }))), 1);
    assert_eq!(zombies, vec!['a', 'c']);
    assert_eq!(reap(&mut zombies, 1, &Err(Error::of(ErrorKind::Other))), 1);
    assert_eq!(zombies, vec!['a']);
    let guard = |reap_on_drop| ChildGuard { inner: Some('z'), reap_on_drop };
    guard(true).drop(Ok(None), &mut zombies);
    assert_eq!(zombies, vec!['a', 'z']);
    guard(false).drop(Ok(None), &mut zombies);
    guard(true).drop(Ok(Some(ExitStatus { raw: 1 })), &mut zombies);
    assert_eq!(zombies.len(), 2);
}

#[test]
fn status_is_asked_for_again_after_a_signal() {
    let cmd = Command::new(text("ls"));
    let mut child = Plain::new(&cmd, Ok(spawned())).ok().unwrap();
    let mut status = child.status();
    let mut event = Event::new(1);
    let mut cx = context(1);
    assert!(matches!(status.poll(&mut event, &cx), StatusStep::Ask));
    // Asked once more, for a process that ended before anybody listened.
    assert!(matches!(status.answered(Ok(None), &mut event, &mut cx), StatusStep::Ask));
    assert!(matches!(status.answered(Ok(None), &mut event, &mut cx), StatusStep::Pending));
    assert!(matches!(status.poll(&mut event, &cx), StatusStep::Pending));
    let mut woken = Vec::new();
    event.notify(usize::MAX, &mut woken);
    assert_eq!(woken, vec![Wake::Task(Waker { id: 1 })]);
    assert!(matches!(status.poll(&mut event, &cx), StatusStep::Ask));
    let end = status.answered(Ok(Some(ExitStatus { raw: 3 })), &mut event, &mut cx);
    assert!(matches!(end, StatusStep::Done(Ok(ExitStatus { raw: 3 }))));
}

#[test]
fn status_that_cannot_be_had() {
    let cmd = Command::new(text("ls"));
    let mut child = Plain::new(&cmd, Ok(spawned())).ok().unwrap();
    let mut status = child.status();
    let mut event = Event::new(1);
    let mut cx = context(1);
    let end = status.answered(Err(Error::of(ErrorKind::Other)), &mut event, &mut cx);
    assert!(matches!(end, StatusStep::Done(Err(_))));
}

#[test]
fn output_is_collected() {
    let mut cx = context(1);
    let out = Cursor::new(b"out".to_vec());
    let mut both = collect(Some(out), None::<Cursor<Vec<u8>>>);
    let collected = match both.poll(&mut cx) {
        Poll::Ready(collected) => collected,
        Poll::Pending => panic!("pending"),
    };
    let result = output(collected, Ok(ExitStatus { raw: 0 })).ok().unwrap();
    assert_eq!(result.status, ExitStatus { raw: 0 });
    assert_eq!(result.stdout, b"out".to_vec());
    assert_eq!(result.stderr, b"".to_vec());
    let failed = output(Ok((vec![], vec![])), Err(Error::of(ErrorKind::Other)));
    assert!(failed.is_err());
    let failed = output(Err(Error::of(ErrorKind::NotFound)), Ok(ExitStatus { raw: 0 }));
    assert_eq!(failed.err().unwrap().kind(), ErrorKind::NotFound);
}

#[test]
fn words_of_a_command_need_not_be_text() {
    let mut cmd = Command::new(vec![0xff]);
    cmd.arg(vec![0x80, 0x81]).current_dir(vec![0xfe]);
    assert_eq!(cmd.program, vec![0xff]);
    assert_eq!(cmd.args, vec![vec![0x80, 0x81]]);
    assert_eq!(cmd.current_dir, Some(vec![0xfe]));
}
