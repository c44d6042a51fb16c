//! A queue without a limit.

use std::collections::VecDeque;
use vstd::prelude::*;
use crate::platform::queue::{PopError, PushError};

verus! {

/// An unbounded queue.
pub struct Unbounded<T> {
    items: VecDeque<T>,
    closed: bool,
}

impl<T> Unbounded<T> {
    pub closed spec fn items(&self) -> Seq<T> {
        self.items@
    }

    pub closed spec fn closed(&self) -> bool {
        self.closed
    }

    pub fn new() -> (r: Self)
        ensures
            r.items() == Seq::<T>::empty(),
            !r.closed(),
    {
        Unbounded { items: VecDeque::new(), closed: false }
    }

    pub fn push(&mut self, value: T) -> (r: Result<(), PushError<T>>)
        ensures
            final(self).closed() == old(self).closed(),
            r == (if old(self).closed() {
                Err(PushError::Closed(value))
            } else {
                Ok::<(), PushError<T>>(())
            }),
            final(self).items() == (if old(self).closed() {
                old(self).items()
            } else {
                old(self).items().push(value)
            }),
    {
        if self.closed {
            return Err(PushError::Closed(value));
        }
        self.items.push_back(value);
        Ok(())
    }

    pub fn pop(&mut self) -> (r: Result<T, PopError>)
        ensures
            final(self).closed() == old(self).closed(),
            r == (if old(self).items().len() > 0 {
                Ok(old(self).items()[0])
            } else if old(self).closed() {
                Err(PopError::Closed)
            } else {
                Err(PopError::Empty)
            }),
            final(self).items() == (if old(self).items().len() > 0 {
                old(self).items().drop_first()
            } else {
                old(self).items()
            }),
    {
        match self.items.pop_front() {
            Some(value) => Ok(value),
            None => if self.closed {
                Err(PopError::Closed)
            } else {
                Err(PopError::Empty)
            },
        }
    }

    pub fn len(&self) -> (r: usize)
        ensures
            r == self.items().len(),
    {
        self.items.len()
    }

    pub fn is_empty(&self) -> (r: bool)
        ensures
            r == (self.items().len() == 0),
    {
        self.items.len() == 0
    }

    pub fn is_full(&self) -> (r: bool)
        ensures
            !r,
    {
        false
    }

    /// Closes the queue; says whether it was open until now.
    pub fn close(&mut self) -> (r: bool)
        ensures
            final(self).closed(),
            final(self).items() == old(self).items(),
            r == !old(self).closed(),
    {
        let was_open = !self.closed;
        self.closed = true;
        was_open
    }

    pub fn is_closed(&self) -> (r: bool)
        ensures
            r == self.closed(),
    {
        self.closed
    }
}

} // verus!
