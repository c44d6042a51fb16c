use cynthia::future::future::{pending, ready, Future};
use cynthia::io::attempt::{connected, optimistic, settled, tried, Incoming, Side, Step};
use cynthia::io::reactor::{ReactStep, Reactor, MAX_TIMER_OPS};
use cynthia::io::source::{Direction, Readiness, Source, Waiting};
use cynthia::io::stream::{Collector, Read, SliceReader, Write};
use cynthia::io::timer::{Timer, LAST_MOMENT};
use cynthia::io::timers::Timers;
use cynthia::io::worker::{notifies_reactor, Access, BlockEvent, BlockOn, BlockStep, IoThread};
use cynthia::io::{Error, ErrorKind};
use cynthia::net::polling::Event;
use cynthia::task::{Context, Poll, Wake, Waker};

const MILLI: u128 = 1_000_000;

fn context(id: u64) -> Context {
    Context::from_waker(Waker { id })
}

fn task(id: u64) -> Wake {
    Wake::Task(Waker { id })
}

#[test]
fn timers_go_off_in_order() {
    let mut timers = Timers::new();
    timers.insert(30, 1, Waker { id: 1 });
    timers.insert(10, 2, Waker { id: 2 });
    timers.insert(20, 3, Waker { id: 3 });
    timers.insert(10, 1, Waker { id: 4 });
    let mut woken = Vec::new();
    assert_eq!(timers.expire(5, &mut woken), Some(5));
    assert_eq!(woken, vec![]);
    assert_eq!(timers.expire(25, &mut woken), Some(0));
    assert_eq!(woken, vec![task(4), task(2), task(3)]);
    assert_eq!(timers.expire(25, &mut woken), Some(5));
    assert_eq!(timers.expire(30, &mut woken), Some(0));
    assert_eq!(woken.len(), 3);
    assert_eq!(timers.expire(31, &mut woken), Some(0));
    assert_eq!(woken.len(), 4);
    assert_eq!(timers.expire(32, &mut woken), None);
}

#[test]
fn timer_that_was_removed_does_not_go_off() {
    let mut timers = Timers::new();
    timers.insert(10, 1, Waker { id: 1 });
    timers.insert(10, 2, Waker { id: 2 });
    timers.remove(10, 1);
    timers.remove(10, 7);
    let mut woken = Vec::new();
    timers.expire(11, &mut woken);
    assert_eq!(woken, vec![task(2)]);
}

#[test]
fn timer_inserted_again_replaces_the_waker() {
    let mut timers = Timers::new();
    timers.insert(10, 1, Waker { id: 1 });
    timers.insert(10, 1, Waker { id: 5 });
    let mut woken = Vec::new();
    timers.expire(11, &mut woken);
    assert_eq!(woken, vec![task(5)]);
}

#[test]
fn reactor_gives_keys_back() {
    let mut reactor = Reactor::new();
    assert_eq!(reactor.add_io(7), 0);
    assert_eq!(reactor.add_io(8), 1);
    assert_eq!(reactor.remove_io(0), Some(7));
    assert_eq!(reactor.remove_io(0), None);
    assert_eq!(reactor.add_io(9), 0);
    assert_eq!(reactor.remove_io(5), None);
}

#[test]
fn reactor_wakes_all_who_wait() {
    let mut reactor = Reactor::new();
    let key = reactor.add_io(7);
    let mut one = context(1);
    let mut waiting = Waiting::new(Direction::Read);
    assert_eq!(
        reactor.poll_ready(key, Direction::Read, &mut one),
        Readiness::Pending(Some(Event::readable(key)))
    );
    assert_eq!(reactor.poll_waiting(key, &mut waiting, &context(2)), Readiness::Pending(None));
    assert_eq!(
        reactor.poll_ready(key, Direction::Write, &mut context(3)),
        Readiness::Pending(Some(Event::all(key)))
    );
    let mut woken = Vec::new();
    assert_eq!(reactor.begin_react(None, 0, &mut woken), None);
    assert_eq!(reactor.ticker(), 1);
    let again = reactor.react_event(&Event::readable(key), &mut woken);
    assert_eq!(woken, vec![task(1), task(2)]);
    assert_eq!(again, Some((7, Event::writable(key))));
    assert_eq!(reactor.poll_ready(key, Direction::Read, &mut one), Readiness::Ready);
    assert_eq!(reactor.poll_waiting(key, &mut waiting, &context(2)), Readiness::Ready);
    reactor.drop_waiting(key, waiting);
    assert_eq!(reactor.react_event(&Event::all(99), &mut woken), None);
    assert_eq!(woken.len(), 2);
}

#[test]
fn who_polls_takes_the_place_of_who_polled() {
    let mut source = Source::new(3, 0);
    assert_eq!(
        source.poll_ready(Direction::Write, &mut context(1), 4),
        Readiness::Pending(Some(Event::writable(0)))
    );
    assert_eq!(source.poll_ready(Direction::Write, &mut context(1), 4), Readiness::Pending(None));
    let mut two = context(2);
    assert_eq!(source.poll_ready(Direction::Write, &mut two, 4), Readiness::Pending(None));
    assert_eq!(two.woken, vec![task(1)]);
    assert_eq!(source.current(), Event::writable(0));
    let mut woken = Vec::new();
    assert_eq!(source.dispatch(&Event::all(0), 4, &mut woken), None);
    assert_eq!(woken, vec![task(2)]);
    // The round had begun when the task asked, so that it may have been for an earlier event.
    assert_eq!(
        source.poll_ready(Direction::Write, &mut two, 4),
        Readiness::Pending(Some(Event::writable(0)))
    );
    source.dispatch(&Event::writable(0), 5, &mut woken);
    assert_eq!(source.poll_ready(Direction::Write, &mut two, 5), Readiness::Ready);
}

#[test]
fn who_stops_waiting_is_not_woken() {
    let mut reactor = Reactor::new();
    let key = reactor.add_io(7);
    let mut waiting = Waiting::new(Direction::Write);
    assert_eq!(
        reactor.poll_waiting(key, &mut waiting, &context(2)),
        Readiness::Pending(Some(Event::writable(key)))
    );
    reactor.drop_waiting(key, waiting);
    let mut woken = Vec::new();
    reactor.react_event(&Event::all(key), &mut woken);
    assert_eq!(woken, vec![]);
}

#[test]
fn round_waits_for_the_next_timer() {
    let mut reactor = Reactor::new();
    let mut woken = Vec::new();
    assert_eq!(reactor.add_timer(100, &Waker { id: 1 }), 1);
    let second = reactor.add_timer(50, &Waker { id: 2 });
    assert_eq!(second, 2);
    assert_eq!(reactor.begin_react(Some(1000), 10, &mut woken), Some(40));
    reactor.react_idle(Some(40), 51, &mut woken);
    assert_eq!(woken, vec![task(2)]);
    assert_eq!(reactor.begin_react(Some(20), 60, &mut woken), Some(20));
    reactor.remove_timer(100, 1);
    assert_eq!(reactor.begin_react(None, 70, &mut woken), None);
    reactor.react_idle(Some(0), 1000, &mut woken);
    assert_eq!(woken.len(), 1);
}

#[test]
fn reactor_takes_more_timers_than_wait_to_be_added() {
    let mut reactor = Reactor::new();
    let n = 2 * MAX_TIMER_OPS + 17;
    for i in 0..n {
        assert_eq!(reactor.add_timer(5, &Waker { id: i as u64 }), i + 1);
    }
    let mut woken = Vec::new();
    reactor.begin_react(Some(0), 6, &mut woken);
    reactor.begin_react(Some(0), 6, &mut woken);
    reactor.begin_react(Some(0), 6, &mut woken);
    assert_eq!(woken.len(), n);
}

#[test]
fn interrupted_round_is_no_failure() {
    assert!(Reactor::react_failed(Error::of(ErrorKind::Interrupted)).is_ok());
    let e = Reactor::react_failed(Error::of(ErrorKind::PermissionDenied)).unwrap_err();
    assert_eq!(e.kind(), ErrorKind::PermissionDenied);
}

#[test]
fn timer_goes_off_once() {
    let mut reactor = Reactor::new();
    let mut timer = Timer::after(5 * MILLI, MILLI);
    let cx = context(1);
    assert_eq!(timer.poll_next(&mut reactor, &cx, 2 * MILLI), (Poll::Pending, true));
    assert_eq!(timer.poll_next(&mut reactor, &cx, 3 * MILLI), (Poll::Pending, false));
    assert_eq!(timer.poll_next(&mut reactor, &context(2), 3 * MILLI), (Poll::Pending, true));
    let mut woken = Vec::new();
    reactor.begin_react(None, 7 * MILLI, &mut woken);
    assert_eq!(woken, vec![task(2)]);
    assert_eq!(timer.poll_next(&mut reactor, &cx, 7 * MILLI), (Poll::Ready(6 * MILLI), false));
    timer.drop(&mut reactor);
}

#[test]
fn interval_goes_off_again() {
    let mut reactor = Reactor::new();
    let mut timer = Timer::interval(10, 0);
    let cx = context(1);
    assert_eq!(timer.poll_next(&mut reactor, &cx, 10), (Poll::Ready(10), true));
    assert_eq!(timer.poll_next(&mut reactor, &cx, 15), (Poll::Pending, false));
    assert_eq!(timer.poll_next(&mut reactor, &cx, 41), (Poll::Ready(20), true));
    assert_eq!(timer.poll_next(&mut reactor, &cx, 41), (Poll::Ready(30), true));
    timer.set_interval_at(&mut reactor, 100, 7);
    assert_eq!(timer.poll_next(&mut reactor, &cx, 100), (Poll::Ready(100), true));
    assert_eq!(timer.poll_next(&mut reactor, &cx, 107), (Poll::Ready(107), true));
}

#[test]
fn timer_that_is_set_anew_goes_off_then() {
    let mut reactor = Reactor::new();
    let mut timer = Timer::at(50);
    let cx = context(1);
    assert!(timer.poll_next(&mut reactor, &cx, 0).0.is_pending());
    assert!(timer.set_at(&mut reactor, 20));
    let mut woken = Vec::new();
    assert_eq!(reactor.begin_react(None, 0, &mut woken), Some(20));
    assert_eq!(timer.poll_next(&mut reactor, &cx, 21).0, Poll::Ready(20));
    let mut unused = Timer::at(LAST_MOMENT);
    assert!(!unused.set_after(&mut reactor, 5, 30));
    assert_eq!(unused.poll_next(&mut reactor, &cx, 35).0, Poll::Ready(35));
}

#[test]
fn io_thread_naps_longer_and_longer() {
    let mut thread = IoThread::new();
    assert_eq!(thread.nap(0), None);
    let naps = [50, 75, 100, 250, 500, 750, 1000, 2500, 5000, 10_000, 10_000];
    for (i, nap) in naps.iter().enumerate() {
        let access = if i >= 10 { Access::Lock } else { Access::TryLock };
        assert_eq!(thread.begin(0), access);
        assert_eq!(thread.nap(1), Some(*nap));
        thread.woke(false, 0);
    }
    assert_eq!(thread.begin(3), Access::Leave);
    thread.reacted(4);
    assert_eq!(thread.begin(4), Access::TryLock);
    assert_eq!(thread.nap(2), Some(50));
    thread.woke(false, 4);
    thread.woke(true, 9);
    assert_eq!(thread.begin(9), Access::TryLock);
    assert_eq!(thread.nap(1), Some(50));
}

#[test]
fn thread_that_blocks_gives_the_reactor_back() {
    let mut block = BlockOn::new();
    assert_eq!(block.step(), BlockStep::Poll);
    block.done(BlockEvent::No, 0);
    assert_eq!(block.step(), BlockStep::Check);
    block.done(BlockEvent::No, 0);
    assert_eq!(block.step(), BlockStep::TryLock);
    assert!(!block.drives());
    block.done(BlockEvent::Yes, 0);
    assert_eq!(block.step(), BlockStep::Check);
    assert!(block.drives());
    block.done(BlockEvent::No, 0);
    assert_eq!(block.step(), BlockStep::React);
    assert!(block.blocks());
    block.done(BlockEvent::Made, 0);
    assert_eq!(block.step(), BlockStep::Check);
    // It was not notified and has driven the reactor for long.
    block.done(BlockEvent::No, 2 * MILLI);
    assert_eq!(block.step(), BlockStep::HandOver);
    block.done(BlockEvent::Made, 2 * MILLI);
    assert_eq!(block.step(), BlockStep::Park);
    assert!(block.blocks());
    block.done(BlockEvent::Made, 2 * MILLI);
    assert_eq!(block.step(), BlockStep::Poll);
    assert!(!block.blocks());
    assert!(!block.drives());
    block.done(BlockEvent::Yes, 2 * MILLI);
    assert_eq!(block.step(), BlockStep::Return);
}

#[test]
fn thread_that_is_notified_drives_in_passing() {
    let mut block = BlockOn::new();
    block.done(BlockEvent::No, 0);
    block.done(BlockEvent::Yes, 0);
    assert_eq!(block.step(), BlockStep::TryLock);
    block.done(BlockEvent::Yes, 0);
    assert_eq!(block.step(), BlockStep::ReactOnce);
    block.done(BlockEvent::Made, 0);
    assert_eq!(block.step(), BlockStep::Poll);
}

#[test]
fn waker_notifies_the_reactor_if_the_thread_is_blocked_in_it() {
    assert!(notifies_reactor(true, false, true));
    assert!(!notifies_reactor(false, false, true));
    assert!(!notifies_reactor(true, true, true));
    assert!(!notifies_reactor(true, false, false));
}

#[test]
fn attempt_that_would_block_is_tried_twice() {
    let mut reactor = Reactor::new();
    let key = reactor.add_io(3);
    let mut cx = context(1);
    let blocked = || Err::<usize, Error>(Error::of(ErrorKind::WouldBlock));
    let first = tried(blocked(), &mut reactor, key, Direction::Read, &mut cx);
    assert!(matches!(first, Step::Wait(Some(ev)) if ev == Event::readable(key)));
    let mut woken = Vec::new();
    reactor.begin_react(None, 0, &mut woken);
    reactor.react_event(&Event::readable(key), &mut woken);
    let second = tried(blocked(), &mut reactor, key, Direction::Read, &mut cx);
    assert!(matches!(second, Step::Again));
    let third = tried(blocked(), &mut reactor, key, Direction::Read, &mut cx);
    assert!(matches!(third, Step::Wait(_)));
    let done = tried(Ok(4), &mut reactor, key, Direction::Read, &mut cx);
    assert!(matches!(done, Step::Done(Ok(4))));
    let failed: Step<usize> =
        tried(Err(Error::of(ErrorKind::NotFound)), &mut reactor, key, Direction::Read, &mut cx);
    assert!(matches!(failed, Step::Done(Err(e)) if e.kind() == ErrorKind::NotFound));
}

#[test]
fn optimistic_wait_ends_at_the_second_poll() {
    let mut cx = context(1);
    let mut wait = optimistic(pending::<Result<(), Error>>());
    assert!(wait.poll(&mut cx).is_pending());
    assert!(matches!(wait.poll(&mut cx), Poll::Ready(Ok(()))));
    let mut failed = optimistic(ready(Err::<(), Error>(Error::of(ErrorKind::Other))));
    assert!(matches!(failed.poll(&mut cx), Poll::Ready(Err(_))));
}

#[test]
fn side_waits_for_what_it_began() {
    let mut cx = context(1);
    let mut side = Side::new();
    assert!(side.tried::<u8>(Err(Error::of(ErrorKind::WouldBlock))).is_none());
    assert!(side.poll_wait(&mut cx, || pending::<Result<(), Error>>()).is_pending());
    assert!(side.waiting.is_some());
    assert!(matches!(side.tried(Ok(3u8)), Some(Ok(3))));
    assert!(side.waiting.is_none());
}

#[test]
fn incoming_connections_come_without_their_addresses() {
    let mut cx = context(1);
    let mut incoming = Incoming::new();
    let got = incoming.poll_next(&mut cx, || ready(Ok::<(u8, u16), Error>((1, 2))));
    assert!(matches!(got, Poll::Ready(Some(Ok(1)))));
    let got = incoming.poll_next(&mut cx, || ready(Ok::<(u8, u16), Error>((5, 2))));
    assert!(matches!(got, Poll::Ready(Some(Ok(5)))));
    let got = incoming.poll_next(&mut cx, || ready(Err(Error::of(ErrorKind::NotFound))));
    assert!(matches!(got, Poll::Ready(Some(Err(_)))));
}

#[test]
fn connection_that_was_made_may_have_failed() {
    assert!(matches!(connected(1, Ok(None)), Ok(1)));
    assert!(connected(1, Ok(Some(Error::of(ErrorKind::ConnectionRefused)))).is_err());
    assert!(connected(1, Err(Error::of(ErrorKind::Other))).is_err());
}

#[test]
fn slice_reader_and_collector() {
    let bytes = [1u8, 2, 3];
    let mut reader = SliceReader::new(&bytes);
    let mut buf = [0u8; 2];
    assert_eq!(reader.read(&mut buf).ok(), Some(2));
    assert_eq!(buf, [1, 2]);
    assert_eq!(reader.read(&mut buf).ok(), Some(1));
    assert_eq!(buf, [3, 2]);
    assert_eq!(reader.read(&mut buf).ok(), Some(0));
    let mut sink = Collector::new(2);
    assert_eq!(sink.write(&[7, 8, 9]).ok(), Some(2));
    assert_eq!(sink.bytes, vec![7, 8]);
    assert!(sink.flush().is_ok());
}

/// A reactor on two sockets, each with one task that reads and one that writes.
fn busy() -> Reactor {
    let mut reactor = Reactor::new();
    for (raw, id) in [(7, 10), (8, 20)] {
        let key = reactor.add_io(raw);
        reactor.poll_ready(key, Direction::Read, &mut context(id + 1));
        reactor.poll_ready(key, Direction::Write, &mut context(id + 2));
    }
    reactor
}

#[test]
fn round_goes_through_all_that_happened() {
    let mut reactor = busy();
    let mut woken = Vec::new();
    assert_eq!(reactor.begin_react(None, 0, &mut woken), None);
    let events = vec![Event::readable(0), Event::all(99), Event::all(1), Event::writable(0)];
    let (mut round, step) = reactor.waited(Ok(events), None, 1, &mut woken);
    assert!(matches!(step, ReactStep::Modify(7, ev) if ev == Event::writable(0)));
    assert_eq!(woken, vec![task(11)]);
    assert_eq!(round.next, 1);
    let step = reactor.told(&mut round, Ok(()), &mut woken);
    assert!(matches!(step, ReactStep::Done(Ok(()))));
    assert_eq!(woken, vec![task(11), task(22), task(21), task(12)]);
    assert_eq!(round.next, 4);
}

#[test]
fn round_is_broken_off() {
    let mut reactor = busy();
    let mut woken = Vec::new();
    reactor.begin_react(None, 0, &mut woken);
    let events = vec![Event::readable(0), Event::all(1)];
    let (mut round, step) = reactor.waited(Ok(events), None, 1, &mut woken);
    assert!(matches!(step, ReactStep::Modify(7, _)));
    let denied = Error::of(ErrorKind::PermissionDenied);
    match reactor.told(&mut round, Err(denied), &mut woken) {
        ReactStep::BrokenOff(e) => assert_eq!(e.kind(), ErrorKind::PermissionDenied),
        _ => panic!("not broken off"),
    }
    assert_eq!(woken, vec![task(11)]);
}

#[test]
fn round_in_which_nothing_happened_looks_at_the_timers() {
    let mut reactor = Reactor::new();
    let mut woken = Vec::new();
    reactor.add_timer(50, &Waker { id: 2 });
    assert_eq!(reactor.begin_react(Some(100), 10, &mut woken), Some(40));
    let (_, step) = reactor.waited(Ok(Vec::new()), Some(0), 51, &mut woken);
    assert!(matches!(step, ReactStep::Done(Ok(()))));
    assert_eq!(woken, vec![]);
    let (_, step) = reactor.waited(Ok(Vec::new()), Some(40), 51, &mut woken);
    assert!(matches!(step, ReactStep::Done(Ok(()))));
    assert_eq!(woken, vec![task(2)]);
}

#[test]
fn round_ends_where_the_poller_fails() {
    let mut reactor = busy();
    let mut woken = Vec::new();
    let interrupted = Error::of(ErrorKind::Interrupted);
    let (_, step) = reactor.waited(Err(interrupted), None, 1, &mut woken);
    assert!(matches!(step, ReactStep::Done(Ok(()))));
    let denied = Error::of(ErrorKind::PermissionDenied);
    match reactor.waited(Err(denied), None, 1, &mut woken).1 {
        ReactStep::Done(Err(e)) => assert_eq!(e.kind(), ErrorKind::PermissionDenied),
        _ => panic!("no error"),
    }
    assert_eq!(woken, vec![]);
}

#[test]
fn what_would_block_is_not_settled() {
    let again: Result<u8, &str> = Err("later");
    assert_eq!(settled(again, Some(ErrorKind::WouldBlock)), None);
    assert_eq!(settled(again, Some(ErrorKind::TimedOut)), Some(Err("later")));
    let done: Result<u8, &str> = Ok(4);
    assert_eq!(settled(done, None), Some(Ok(4)));
}
