use cynthia::platform::byte_pool::allocate::{Allocate, Realloc};
use cynthia::platform::byte_pool::pool::BytePool;
use cynthia::platform::event::listener::{Event, EventListener, WaitStep};
use cynthia::platform::wait_group::wait::WaitGroup;
use cynthia::platform::waker::sleeper::Sleeper;
use cynthia::task::{Context, Poll, Wake, Waker};

fn waker(id: u64) -> Waker {
    Waker { id }
}

fn context(id: u64) -> Context {
    Context::from_waker(waker(id))
}

#[test]
fn notify_reaches_the_first_listener() {
    let mut event = Event::new(1);
    let mut woken = Vec::new();
    let mut a = event.listen();
    let mut b = event.listen();
    assert_eq!(a.poll(&mut event, &context(1)), Poll::Pending);
    assert_eq!(b.poll(&mut event, &context(2)), Poll::Pending);
    event.notify(1, &mut woken);
    assert_eq!(woken, vec![Wake::Task(waker(1))]);
    assert_eq!(a.poll(&mut event, &context(1)), Poll::Ready(()));
    assert_eq!(b.poll(&mut event, &context(2)), Poll::Pending);
}

#[test]
fn notify_counts_those_already_notified() {
    let mut event = Event::new(1);
    let mut woken = Vec::new();
    let mut a = event.listen();
    let mut b = event.listen();
    event.notify(1, &mut woken);
    event.notify(1, &mut woken);
    assert_eq!(a.poll(&mut event, &context(1)), Poll::Ready(()));
    assert_eq!(b.poll(&mut event, &context(2)), Poll::Pending);
}

#[test]
fn notify_additional_adds_one() {
    let mut event = Event::new(1);
    let mut woken = Vec::new();
    let mut a = event.listen();
    let mut b = event.listen();
    event.notify_additional(1, &mut woken);
    event.notify_additional_relaxed(1, &mut woken);
    assert_eq!(a.poll(&mut event, &context(1)), Poll::Ready(()));
    assert_eq!(b.poll(&mut event, &context(2)), Poll::Ready(()));
}

#[test]
fn notification_is_passed_on_when_dropped() {
    let mut event = Event::new(1);
    let mut woken = Vec::new();
    let a = event.listen();
    let mut b = event.listen();
    assert_eq!(b.poll(&mut event, &context(2)), Poll::Pending);
    event.notify(1, &mut woken);
    assert!(woken.is_empty());
    a.drop(&mut event, &mut woken);
    assert_eq!(woken, vec![Wake::Task(waker(2))]);
    assert_eq!(b.poll(&mut event, &context(2)), Poll::Ready(()));
}

#[test]
fn discarded_listener_tells_and_keeps_it() {
    let mut event = Event::new(1);
    let mut woken = Vec::new();
    let a = event.listen();
    let b = event.listen();
    event.notify_relaxed(1, &mut woken);
    assert!(a.discard(&mut event));
    assert!(!b.discard(&mut event));
}

#[test]
fn notify_without_listeners_is_lost() {
    let mut event = Event::new(1);
    let mut woken = Vec::new();
    event.notify(5, &mut woken);
    let mut a = event.listen();
    assert_eq!(a.poll(&mut event, &context(1)), Poll::Pending);
}

#[test]
fn thread_waits_for_event() {
    let mut event = Event::new(1);
    let mut woken = Vec::new();
    let mut a = event.listen();
    assert!(!a.start_wait(&mut event, 77));
    event.notify(1, &mut woken);
    assert_eq!(woken, vec![Wake::Thread(77)]);
    assert!(a.check_wait(&mut event));
    assert_eq!(EventListener::wait_step(None, 3), WaitStep::Park);
    assert_eq!(EventListener::wait_step(Some(10), 3), WaitStep::ParkTimeout(7));
    assert_eq!(EventListener::wait_step(Some(10), 10), WaitStep::TimedOut);
}

#[test]
fn listener_knows_its_event() {
    let mut event = Event::new(1);
    let mut other = Event::new(2);
    let a = event.listen();
    let b = event.listen();
    let c = other.listen();
    assert!(a.listens_to(&event) && !a.listens_to(&other));
    assert!(a.same_event(&b) && !a.same_event(&c));
}

#[test]
fn pool_gives_buffer_again() {
    let mut pool = BytePool::new();
    let mut a = pool.allocate(16);
    assert_eq!(a.size(), 16);
    a.deref_mut()[0] = 5;
    a.drop(&mut pool);
    let mut b = pool.allocate(16);
    assert_eq!(b.deref_mut()[0], 5);
    b.drop(&mut pool);
    let mut c = pool.allocate(17);
    assert_eq!(c.deref_mut()[0], 0);
    assert_eq!(c.size(), 17);
}

#[test]
fn pool_passes_over_buffers_of_other_sizes() {
    let mut pool = BytePool::new();
    let mut a = pool.allocate(8);
    a.deref_mut()[0] = 1;
    let mut b = pool.allocate(9);
    b.deref_mut()[0] = 2;
    a.drop(&mut pool);
    b.drop(&mut pool);
    let mut fresh = pool.allocate(9);
    assert_eq!(fresh.deref_mut()[0], 0);
    let mut old = pool.allocate(9);
    assert_eq!(old.deref_mut()[0], 2);
}

#[test]
fn buffer_changes_size() {
    let mut v: Vec<u8> = <Vec<u8> as Allocate>::allocate(4);
    assert_eq!(v, vec![0; 4]);
    assert_eq!(Allocate::capacity(&v), 4);
    v[3] = 7;
    v.realloc(1000);
    assert_eq!(v.len(), 1000);
    assert_eq!(v[3], 7);
    v.realloc(2);
    assert_eq!(v, vec![0, 0]);
}

#[test]
fn sleepers_come_and_go() {
    let mut s = Sleeper::new();
    assert!(s.is_notified());
    let a = s.insert(&waker(1));
    let b = s.insert(&waker(2));
    assert_eq!((a, b), (1, 2));
    assert!(!s.is_notified());
    assert_eq!(s.notify(), Some(waker(2)));
    assert!(s.is_notified());
    assert_eq!(s.notify(), None);
    assert!(s.update(b, &waker(3)));
    assert!(!s.update(b, &waker(4)));
    assert!(!s.remove(b));
    assert!(!s.remove(a));
    assert_eq!(s.insert(&waker(5)), a);
}

#[test]
fn group_waits_for_its_members() {
    let (mut group, mut inner) = WaitGroup::new();
    let mut cx = context(1);
    assert_eq!(group.poll(&mut inner, &mut cx), Poll::Ready(()));
    let mut a = WaitGroup::wait_clone(&mut inner, &cx);
    let mut b = WaitGroup::wait_clone(&mut inner, &cx);
    assert_eq!(group.poll(&mut inner, &mut cx), Poll::Pending);
    let mut other = context(9);
    assert_eq!(a.poll(&mut inner, &mut other), Poll::Ready(()));
    assert!(other.woken.is_empty());
    assert_eq!(b.poll(&mut inner, &mut other), Poll::Ready(()));
    assert_eq!(other.woken, vec![Wake::Task(waker(1))]);
    assert_eq!(group.poll(&mut inner, &mut cx), Poll::Ready(()));
}
