use cynthia::platform::queue::bounded::{Bounded, PopStep, PushStep};
use cynthia::platform::queue::single::{Single, SinglePop, SinglePush};
use cynthia::platform::queue::{ConcurrentQueue, PopError, PushError};

#[test]
fn bounded_first_in_first_out() {
    let mut q = ConcurrentQueue::bounded(3);
    for i in 0..3 {
        assert!(q.push(i).is_ok());
    }
    assert!(q.is_full());
    assert!(matches!(q.push(9), Err(PushError::Full(9))));
    for i in 0..3 {
        assert!(matches!(q.pop(), Ok(v) if v == i));
    }
    assert!(matches!(q.pop(), Err(PopError::Empty)));
}

#[test]
fn bounded_wraps_many_times() {
    let mut q = ConcurrentQueue::bounded(2);
    for i in 0..100u32 {
        assert!(q.push(i).is_ok());
        assert!(q.push(i + 1000).is_ok());
        assert_eq!(q.len(), 2);
        assert!(matches!(q.pop(), Ok(v) if v == i));
        assert!(matches!(q.pop(), Ok(v) if v == i + 1000));
        assert!(q.is_empty());
    }
}

#[test]
fn closed_queue_still_gives_items() {
    for cap in 1..4 {
        let mut q = ConcurrentQueue::bounded(cap);
        assert!(q.push('a').is_ok());
        assert!(q.close());
        assert!(!q.close());
        assert!(q.is_closed());
        assert!(matches!(q.push('b'), Err(PushError::Closed('b'))));
        assert!(matches!(q.pop(), Ok('a')));
        assert!(matches!(q.pop(), Err(PopError::Closed)));
    }
}

#[test]
fn single_holds_one() {
    let mut q = ConcurrentQueue::bounded(1);
    assert_eq!(q.capacity(), Some(1));
    assert!(q.push(1).is_ok());
    assert!(matches!(q.push(2), Err(PushError::Full(2))));
    assert_eq!(q.len(), 1);
    assert!(matches!(q.pop(), Ok(1)));
    assert!(q.is_empty());
}

#[test]
fn unbounded_never_full() {
    let mut q = ConcurrentQueue::unbounded();
    assert_eq!(q.capacity(), None);
    for i in 0..1000 {
        assert!(q.push(i).is_ok());
    }
    assert!(!q.is_full());
    assert_eq!(q.len(), 1000);
    for i in 0..1000 {
        assert!(matches!(q.pop(), Ok(v) if v == i));
    }
    q.close();
    assert!(matches!(q.pop(), Err(PopError::Closed)));
    assert!(matches!(q.push(5), Err(PushError::Closed(5))));
}

#[test]
fn push_that_is_not_finished_hides_later_items() {
    let mut q: Bounded<u8> = Bounded::new(3);
    let first = match q.start_push() {
        PushStep::Claimed(ticket) => ticket,
        _ => panic!("there is room"),
    };
    assert!(q.push(2).is_ok());
    assert!(!matches!(q.start_pop(), PopStep::Claimed(_)));
    q.finish_push(first, 1);
    assert!(matches!(q.pop(), Ok(1)));
    assert!(matches!(q.pop(), Ok(2)));
}

#[test]
fn single_push_in_two_steps() {
    let mut q: Single<u8> = Single::new();
    assert!(matches!(q.start_push(), SinglePush::Claimed));
    assert!(matches!(q.start_push(), SinglePush::Full));
    q.finish_push(4);
    assert!(matches!(q.start_pop(), SinglePop::Claimed));
    assert_eq!(q.finish_pop(), 4);
    assert!(q.is_empty());
}

#[test]
fn queue_errors_say_what_is_wrong() {
    assert_eq!(PopError::Empty.to_string(), "Empty");
    assert_eq!(PopError::Closed.to_string(), "Closed");
    assert!(PopError::Empty.is_empty() && !PopError::Empty.is_closed());
    let full = PushError::Full(3);
    assert!(full.is_full() && !full.is_closed());
    assert_eq!(full.to_string(), "Full");
    assert_eq!(full.into_inner(), 3);
    assert_eq!(PushError::Closed(4).to_string(), "Closed");
}
