use cynthia::runtime::task::header::Header;
use cynthia::runtime::task::layout::{extend, padding_needed_for, Layout};
use cynthia::runtime::task::state::{
    AWAITER, CLOSED, COMPLETED, NOTIFYING, REFERENCE, REGISTERING, SCHEDULED,
};
use cynthia::runtime::task::Runnable;
use cynthia::task::{Context, Poll, Wake, Waker};

fn task(id: u64) -> Wake {
    Wake::Task(Waker { id })
}

#[test]
fn waker_is_registered_and_notified() {
    let mut header = Header { state: REFERENCE | SCHEDULED, awaiter: None };
    let mut woken = Vec::new();
    header.register(&Waker { id: 1 }, &mut woken);
    assert_eq!(header.state, REFERENCE | SCHEDULED | AWAITER);
    header.register(&Waker { id: 2 }, &mut woken);
    assert_eq!(woken, vec![]);
    header.notify(None, &mut woken);
    assert_eq!(woken, vec![task(2)]);
    assert_eq!(header.state, REFERENCE | SCHEDULED);
    assert_eq!(header.awaiter, None);
}

#[test]
fn who_notifies_does_not_notify_itself() {
    let mut header = Header { state: AWAITER, awaiter: Some(Waker { id: 1 }) };
    assert_eq!(header.take(Some(&Waker { id: 1 })), None);
    assert_eq!(header.awaiter, None);
    let mut header = Header { state: AWAITER, awaiter: Some(Waker { id: 1 }) };
    assert_eq!(header.take(Some(&Waker { id: 3 })), Some(Waker { id: 1 }));
}

#[test]
fn notification_during_registration_is_not_lost() {
    let mut header = Header { state: REFERENCE, awaiter: None };
    let mut woken = Vec::new();
    assert!(header.begin_register(&Waker { id: 1 }, &mut woken));
    assert_eq!(header.state, REFERENCE | REGISTERING);
    header.notify(None, &mut woken);
    assert_eq!(woken, vec![]);
    header.finish_register(&mut woken);
    assert_eq!(woken, vec![task(1)]);
    assert_eq!(header.state, REFERENCE);
}

#[test]
fn registration_during_notification_wakes_at_once() {
    let mut header = Header { state: REFERENCE | AWAITER, awaiter: Some(Waker { id: 1 }) };
    let mut woken = Vec::new();
    assert!(header.begin_take());
    assert_eq!(header.state, REFERENCE | AWAITER | NOTIFYING);
    assert!(!header.begin_take());
    header.register(&Waker { id: 2 }, &mut woken);
    assert_eq!(woken, vec![task(2)]);
    assert_eq!(header.finish_take(None), Some(Waker { id: 1 }));
    assert_eq!(header.state, REFERENCE);
}

#[test]
fn task_that_is_dropped_is_closed_and_tells_who_waits() {
    let header = Header { state: SCHEDULED | AWAITER | REFERENCE, awaiter: Some(Waker { id: 4 }) };
    let mut runnable = Runnable::new(header);
    let mut woken = Vec::new();
    runnable.close();
    runnable.unschedule(&mut woken);
    assert_eq!(woken, vec![task(4)]);
    assert_eq!(runnable.nice(), 0);
}

#[test]
fn task_without_anybody_waiting_tells_nobody() {
    let mut runnable = Runnable::new(Header { state: SCHEDULED | COMPLETED | CLOSED, awaiter: None });
    let mut woken = Vec::new();
    runnable.close();
    runnable.unschedule(&mut woken);
    assert_eq!(woken, vec![]);
}

#[test]
fn parts_stand_behind_each_other() {
    let a = Layout { size: 5, align: 1 };
    let b = Layout { size: 8, align: 8 };
    assert_eq!(padding_needed_for(a, 8), 3);
    assert_eq!(padding_needed_for(b, 8), 0);
    assert_eq!(padding_needed_for(a, 1), 0);
    assert_eq!(extend(a, b), (Layout { size: 16, align: 8 }, 8));
    assert_eq!(extend(b, a), (Layout { size: 13, align: 8 }, 8));
}

#[test]
fn wakers_and_contexts() {
    let waker = Waker { id: 1 };
    assert!(waker.will_wake(&Waker { id: 1 }));
    assert!(!waker.will_wake(&Waker { id: 2 }));
    let mut cx = Context::from_waker(waker);
    cx.wake_by_ref();
    assert_eq!(cx.woken, vec![task(1)]);
    assert!(Poll::Ready(1).is_ready());
    assert!(Poll::<u8>::Pending.is_pending());
}
