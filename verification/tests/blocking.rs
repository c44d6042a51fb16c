use cynthia::io::stream::{Collector, SeekFrom, SliceReader};
use cynthia::io::{Error, ErrorKind};
use cynthia::runtime::blocking::executor::{Executor, Worker, WorkerStep, MAX_THREADS};
use cynthia::runtime::blocking::pipe::{maybe_yield, pipe};
use cynthia::runtime::blocking::unblock::{
    drained, filled, flushed, DrainStep, NextStep, Output, Step, Unblock,
};
use cynthia::task::{Context, Poll, Wake, Waker};

fn context(id: u64) -> Context {
    Context::from_waker(Waker { id })
}

fn task(id: u64) -> Wake {
    Wake::Task(Waker { id })
}

#[test]
fn pipe_gives_bytes_in_order() {
    let (mut shared, mut reader, mut writer) = pipe(4);
    let source: Vec<u8> = (1..=11).collect();
    let mut src = SliceReader::new(&source);
    let mut dest = Collector::new(100);
    let mut turns = 0;
    while dest.bytes.len() < 11 {
        let mut cx = context(1);
        if writer.ready(&mut shared, &mut cx, 1).is_ready() {
            assert!(writer.fill(&mut shared, &mut cx, &mut src, 1).is_ready());
        }
        if reader.ready(&mut shared, &mut cx, 1).is_ready() {
            assert!(reader.drain(&mut shared, &mut cx, &mut dest, 1).is_ready());
        }
        turns += 1;
        assert!(turns < 100);
    }
    assert_eq!(dest.bytes, source);
}

#[test]
fn reader_of_an_empty_pipe_is_woken_by_the_writer() {
    let (mut shared, mut reader, mut writer) = pipe(3);
    let mut one = context(1);
    assert!(reader.ready(&mut shared, &mut one, 1).is_pending());
    let mut two = context(2);
    assert_eq!(writer.ready(&mut shared, &mut two, 1), Poll::Ready(true));
    let room = writer.window(&mut shared);
    assert!(room > 0 && room <= 3);
    writer.commit(&mut shared, &[7], 1, &mut two);
    assert_eq!(two.woken, vec![task(1)]);
    assert_eq!(reader.ready(&mut shared, &mut one, 1), Poll::Ready(true));
    assert_eq!(reader.peek(&shared), &[7]);
    reader.consume(&mut shared, 1, &mut one);
    assert!(reader.ready(&mut shared, &mut one, 1).is_pending());
}

#[test]
fn writer_of_a_full_pipe_is_woken_by_the_reader() {
    let (mut shared, mut reader, mut writer) = pipe(2);
    let mut two = context(2);
    let source = [1u8, 2, 3];
    let mut src = SliceReader::new(&source);
    assert!(writer.ready(&mut shared, &mut two, 1).is_ready());
    assert!(matches!(writer.fill(&mut shared, &mut two, &mut src, 1), Poll::Ready(Ok(2))));
    assert!(writer.ready(&mut shared, &mut two, 1).is_pending());
    let mut one = context(1);
    let mut dest = Collector::new(9);
    assert!(reader.ready(&mut shared, &mut one, 1).is_ready());
    assert!(matches!(reader.drain(&mut shared, &mut one, &mut dest, 1), Poll::Ready(Ok(2))));
    assert_eq!(one.woken, vec![task(2)]);
}

#[test]
fn reader_gets_what_was_written_before_the_writer_left() {
    let (mut shared, mut reader, mut writer) = pipe(5);
    let mut cx = context(1);
    let source = [4u8, 5];
    let mut src = SliceReader::new(&source);
    assert!(writer.ready(&mut shared, &mut cx, 1).is_ready());
    assert!(writer.fill(&mut shared, &mut cx, &mut src, 1).is_ready());
    let mut woken = Vec::new();
    writer.drop(&mut shared, &mut woken);
    let mut dest = Collector::new(9);
    assert!(reader.ready(&mut shared, &mut cx, 1).is_ready());
    assert!(matches!(reader.drain(&mut shared, &mut cx, &mut dest, 1), Poll::Ready(Ok(2))));
    assert!(matches!(reader.drain(&mut shared, &mut cx, &mut dest, 1), Poll::Ready(Ok(0))));
    assert_eq!(dest.bytes, vec![4, 5]);
}

#[test]
fn writer_without_a_reader_writes_nothing() {
    let (mut shared, reader, mut writer) = pipe(5);
    let mut cx = context(1);
    let mut woken = Vec::new();
    reader.drop(&mut shared, &mut woken);
    let source = [4u8, 5];
    let mut src = SliceReader::new(&source);
    assert!(matches!(writer.fill(&mut shared, &mut cx, &mut src, 1), Poll::Ready(Ok(0))));
}

#[test]
fn task_gives_way_once_in_a_while() {
    let mut cx = context(3);
    assert!(maybe_yield(&mut cx, 1).is_ready());
    assert_eq!(cx.woken, vec![]);
    assert!(maybe_yield(&mut cx, 0).is_pending());
    assert_eq!(cx.woken, vec![task(3)]);
}

#[test]
fn pool_has_a_thread_for_five_tasks() {
    let mut pool = Executor::new();
    let mut started = Vec::new();
    for i in 0..12 {
        started.push(pool.schedule(i));
    }
    assert_eq!(started, vec![1, 0, 0, 0, 0, 1, 0, 0, 0, 0, 1, 0]);
}

#[test]
fn pool_has_no_more_threads_than_it_may() {
    let mut pool = Executor::new();
    let mut started = 0;
    for i in 0..(5 * MAX_THREADS + 100) {
        started += pool.schedule(i);
    }
    assert_eq!(started, MAX_THREADS);
}

#[test]
fn worker_runs_tasks_in_order_and_leaves() {
    let mut pool = Executor::new();
    assert_eq!(pool.schedule('a'), 1);
    assert_eq!(pool.schedule('b'), 0);
    let mut worker = Worker::Idle;
    // The only thread is at work then, and another one is started for what is left.
    assert!(matches!(pool.cycle_entry(&mut worker, false), WorkerStep::Run('a', 1)));
    assert_eq!(worker, Worker::Busy);
    assert!(matches!(pool.cycle_entry(&mut worker, false), WorkerStep::Run('b', 0)));
    assert!(matches!(pool.cycle_entry(&mut worker, false), WorkerStep::Sleep));
    assert_eq!(worker, Worker::Idle);
    assert!(matches!(pool.cycle_entry(&mut worker, false), WorkerStep::Sleep));
    assert!(matches!(pool.cycle_entry(&mut worker, true), WorkerStep::Exit));
    assert_eq!(worker, Worker::Gone);
    assert_eq!(pool.schedule('c'), 0);
}

#[test]
fn worker_that_slept_too_long_takes_work_that_came() {
    let mut pool = Executor::new();
    pool.schedule(1);
    let mut worker = Worker::Idle;
    assert!(matches!(pool.cycle_entry(&mut worker, true), WorkerStep::Run(1, 0)));
}

#[test]
fn unblock_reads_what_the_thread_reads() {
    let (mut shared, _, _) = pipe(1);
    let mut io = Unblock::with_capacity(8, 'x');
    let mut cx = context(1);
    let mut buf = [0u8; 4];
    let mut writer = match io.poll_read(&mut shared, &mut cx, &mut buf, None, 1) {
        Step::Start('x', writer) => writer,
        _ => panic!("no thread was started"),
    };
    assert!(!io.is_idle());
    assert!(matches!(
        io.poll_read(&mut shared, &mut cx, &mut buf, None, 1),
        Step::Done(Poll::Pending)
    ));
    let source = [9u8, 8, 7, 6, 5];
    let mut src = SliceReader::new(&source);
    let mut thread = context(2);
    assert!(writer.ready(&mut shared, &mut thread, 1).is_ready());
    assert!(writer.fill(&mut shared, &mut thread, &mut src, 1).is_ready());
    assert_eq!(thread.woken, vec![task(1)]);
    assert!(matches!(
        io.poll_read(&mut shared, &mut cx, &mut buf, None, 1),
        Step::Done(Poll::Ready(Ok(4)))
    ));
    assert_eq!(buf, [9, 8, 7, 6]);
    let mut woken = Vec::new();
    writer.drop(&mut shared, &mut woken);
    assert!(matches!(
        io.poll_read(&mut shared, &mut cx, &mut buf, None, 1),
        Step::Done(Poll::Ready(Ok(1)))
    ));
    assert_eq!(buf[0], 5);
    assert!(matches!(io.poll_read(&mut shared, &mut cx, &mut buf, None, 1), Step::AskThread));
    let back = Some(Poll::Ready(Output::Done(Ok(()), 'x')));
    assert!(matches!(
        io.poll_read(&mut shared, &mut cx, &mut buf, back, 1),
        Step::Done(Poll::Ready(Ok(0)))
    ));
    assert!(io.is_idle());
    assert_eq!(io.into_inner(), 'x');
}

#[test]
fn unblock_tells_of_the_error_of_the_thread() {
    let (mut shared, _, _) = pipe(1);
    let mut io = Unblock::new('x');
    let mut cx = context(1);
    let mut buf = [0u8; 4];
    let writer = match io.poll_read(&mut shared, &mut cx, &mut buf, None, 1) {
        Step::Start('x', writer) => writer,
        _ => panic!("no thread was started"),
    };
    let mut woken = Vec::new();
    writer.drop(&mut shared, &mut woken);
    assert!(matches!(io.poll_read(&mut shared, &mut cx, &mut buf, None, 1), Step::AskThread));
    let back = Some(Poll::Ready(Output::Done(Err(Error::of(ErrorKind::NotFound)), 'x')));
    match io.poll_read(&mut shared, &mut cx, &mut buf, back, 1) {
        Step::Done(Poll::Ready(Err(e))) => assert_eq!(e.kind(), ErrorKind::NotFound),
        _ => panic!("no error"),
    }
}

#[test]
fn unblock_writes_and_flushes() {
    let (mut shared, _, _) = pipe(1);
    let mut io = Unblock::with_capacity(4, 'x');
    let mut cx = context(1);
    let mut reader = match io.poll_write(&mut shared, &mut cx, &[1, 2, 3, 4, 5, 6], None, 1) {
        Step::Start('x', reader) => reader,
        _ => panic!("no thread was started"),
    };
    assert!(matches!(
        io.poll_write(&mut shared, &mut cx, &[1, 2, 3, 4, 5, 6], None, 1),
        Step::Done(Poll::Ready(Ok(4)))
    ));
    assert!(matches!(
        io.poll_write(&mut shared, &mut cx, &[5, 6], None, 1),
        Step::Done(Poll::Pending)
    ));
    assert!(matches!(io.poll_flush(&mut shared, &mut cx, None), Step::AskThread));
    assert!(matches!(
        io.poll_flush(&mut shared, &mut cx, Some(Poll::Pending)),
        Step::Done(Poll::Pending)
    ));
    let mut dest = Collector::new(9);
    let mut thread = context(2);
    assert!(reader.ready(&mut shared, &mut thread, 1).is_ready());
    assert!(reader.drain(&mut shared, &mut thread, &mut dest, 1).is_ready());
    assert_eq!(dest.bytes, vec![1, 2, 3, 4]);
    let back = Some(Poll::Ready(Output::Done(Ok(()), 'x')));
    assert!(matches!(
        io.poll_flush(&mut shared, &mut cx, back),
        Step::Done(Poll::Ready(Ok(())))
    ));
    assert!(matches!(
        io.poll_close(&mut shared, &mut cx, None),
        Step::Done(Poll::Ready(Ok(())))
    ));
}

#[test]
fn unblock_goes_to_a_position() {
    let (mut shared, _, _) = pipe(1);
    let mut io = Unblock::new('x');
    let mut cx = context(1);
    let to = SeekFrom::Start(12);
    assert!(matches!(
        io.poll_seek(&mut shared, &mut cx, to, None),
        Step::Start('x', SeekFrom::Start(12))
    ));
    assert!(matches!(io.poll_seek(&mut shared, &mut cx, to, None), Step::AskThread));
    let back = Some(Poll::Ready(Output::Sought(to, Ok(12), 'x')));
    assert!(matches!(
        io.poll_seek(&mut shared, &mut cx, to, back),
        Step::Done(Poll::Ready(Ok(12)))
    ));
    assert!(io.is_idle());
}

#[test]
fn unblock_gives_the_value_to_a_function() {
    let (mut shared, _, _) = pipe(1);
    let mut io = Unblock::new(1);
    *io.get_mut() = 2;
    assert_eq!(io.start_with_mut(), 2);
    let mut woken = Vec::new();
    assert!(matches!(io.poll_stop(&mut shared, None, &mut woken), Step::AskThread));
    let back = Some(Poll::Ready(Output::Value(3)));
    assert!(matches!(
        io.poll_stop(&mut shared, back, &mut woken),
        Step::Done(Poll::Ready(Ok(())))
    ));
    assert_eq!(io.into_inner(), 3);
}

#[test]
fn unblock_gives_items() {
    let (mut shared, _, _) = pipe(1);
    let mut io = Unblock::new('x');
    let mut cx = context(1);
    assert!(matches!(
        io.poll_next::<u8>(&mut shared, &mut cx, None, None),
        NextStep::Start('x', 8192)
    ));
    assert!(matches!(io.poll_next::<u8>(&mut shared, &mut cx, None, None), NextStep::AskItem));
    assert!(matches!(
        io.poll_next(&mut shared, &mut cx, Some(Poll::Ready(Some(4u8))), None),
        NextStep::Done(Poll::Ready(Some(4)))
    ));
    assert!(matches!(
        io.poll_next::<u8>(&mut shared, &mut cx, Some(Poll::Ready(None)), None),
        NextStep::AskThread
    ));
    let back = Some(Poll::Ready(Output::Value('y')));
    assert!(matches!(
        io.poll_next::<u8>(&mut shared, &mut cx, Some(Poll::Ready(None)), back),
        NextStep::Done(Poll::Ready(None))
    ));
    assert_eq!(io.into_inner(), 'y');
}

#[test]
fn thread_goes_on_while_bytes_come() {
    assert!(filled(Ok(3)).is_none());
    assert!(matches!(filled(Ok(0)), Some(Ok(()))));
    assert!(matches!(filled(Err(Error::of(ErrorKind::Other))), Some(Err(_))));
    assert!(matches!(drained(Ok(3)), DrainStep::Again));
    assert!(matches!(drained(Ok(0)), DrainStep::Flush(None)));
    assert!(matches!(drained(Err(Error::of(ErrorKind::Other))), DrainStep::Flush(Some(_))));
    assert!(flushed(None, Ok(())).is_ok());
    assert!(flushed(None, Err(Error::of(ErrorKind::Other))).is_err());
    let first = flushed(Some(Error::of(ErrorKind::NotFound)), Err(Error::of(ErrorKind::Other)));
    assert_eq!(first.err().unwrap().kind(), ErrorKind::NotFound);
}

#[test]
fn pipe_offers_as_much_as_it_can_at_once() {
    let cap = 300_000;
    let (mut shared, mut reader, mut writer) = pipe(cap);
    let mut cx = context(1);
    assert_eq!(writer.ready(&mut shared, &mut cx, 1), Poll::Ready(true));
    // Twice as much as was made ready before, and some more, up to a chunk.
    let mut windows = Vec::new();
    for _ in 0..6 {
        windows.push(writer.window(&mut shared));
    }
    assert_eq!(windows, vec![4096, 12288, 28672, 61440, 126976, 131072]);
    let bytes = vec![9u8; 131072];
    writer.commit(&mut shared, &bytes, 131072, &mut cx);
    assert_eq!(writer.window(&mut shared), 131072);
    writer.commit(&mut shared, &bytes, 131072, &mut cx);
    // What is left up to the end of the ring.
    assert_eq!(writer.window(&mut shared), cap - 262144);
    assert_eq!(reader.peek(&shared).len(), 0);
    assert_eq!(reader.ready(&mut shared, &mut cx, 1), Poll::Ready(true));
    assert_eq!(reader.peek(&shared).len(), 131072);
    reader.consume(&mut shared, 131072, &mut cx);
    reader.consume(&mut shared, 131000, &mut cx);
    assert_eq!(reader.peek(&shared).len(), 72);
    // The writer still believes that there is only the room that it knew of.
    writer.commit(&mut shared, &bytes, cap - 262144, &mut cx);
    assert_eq!(writer.window(&mut shared), 0);
    assert_eq!(writer.ready(&mut shared, &mut cx, 1), Poll::Ready(true));
    assert_eq!(writer.window(&mut shared), 131072);
}
