//! What a task and those who wake it up know of each other.

use vstd::prelude::*;

verus! {

/// A number of nanoseconds: a span of time, or the time since some fixed moment.
pub type Nanos = u128;

/// What came of polling.
#[derive(Debug, PartialEq, Eq)]
pub enum Poll<T> {
    Ready(T),
    /// Nothing yet; the task will be woken up.
    Pending,
}

impl<T> Poll<T> {
    pub fn is_ready(&self) -> (r: bool)
        ensures
            r == (*self is Ready),
    {
        match self {
            Poll::Ready(_) => true,
            Poll::Pending => false,
        }
    }

    pub fn is_pending(&self) -> (r: bool)
        ensures
            r == (*self is Pending),
    {
        !self.is_ready()
    }
}

/// Names a task that can be woken up.
#[derive(Clone, Copy, Debug, PartialEq, Eq, Structural)]
pub struct Waker {
    pub id: u64,
}

impl Waker {
    /// Whether both wake up the same task.
    pub fn will_wake(&self, other: &Waker) -> (r: bool)
        ensures
            r == (*self == *other),
    {
        self.id == other.id
    }
}

/// Somebody who is to be woken up.
#[derive(Clone, Copy, Debug, PartialEq, Eq, Structural)]
pub enum Wake {
    /// A task, through its waker.
    Task(Waker),
    /// A thread that is parked.
    Thread(u64),
}

/// What a future is polled with: the waker of the task, and those whom the future woke up.
#[derive(Debug)]
pub struct Context {
    pub waker: Waker,
    pub woken: Vec<Wake>,
}

impl Context {
    pub fn from_waker(waker: Waker) -> (r: Self)
        ensures
            r.waker == waker,
            r.woken@ == Seq::<Wake>::empty(),
    {
        Context { waker, woken: Vec::new() }
    }

    /// Wakes up the task that is being polled.
    pub fn wake_by_ref(&mut self)
        ensures
            final(self).waker == old(self).waker,
            final(self).woken@ == old(self).woken@.push(Wake::Task(old(self).waker)),
    {
        let waker = self.waker;
        self.woken.push(Wake::Task(waker));
    }
}

} // verus!
