//! A task that is to be run.

use vstd::prelude::*;
use crate::runtime::task::header::{not_forgotten, Header};
use crate::runtime::task::state::{
    is_set, lemma_run_bits, lemma_scheduled_bit, other_bits, waiting_bits, AWAITER, CLOSED, COMPLETED,
    NOTIFYING, SCHEDULED,
};
use crate::task::Wake;

verus! {

/// A task that is to be run.
pub struct Runnable {
    nice: i32,
    header: Header,
}

impl Runnable {
    pub closed spec fn niceness(&self) -> i32 {
        self.nice
    }

    pub closed spec fn header(&self) -> Header {
        self.header
    }

    pub fn new(header: Header) -> (r: Self)
        ensures
            r.niceness() == 0,
            r.header() == header,
    {
        Runnable { nice: 0, header }
    }

    pub fn nice(self) -> (r: i32)
        ensures
            r == self.niceness(),
    {
        self.nice
    }

    /// The first thing to do when the task is dropped without being run: it is closed, unless it is
    /// closed or has its output.
    pub fn close(&mut self)
        ensures
            final(self).niceness() == old(self).niceness(),
            final(self).header().awaiter == old(self).header().awaiter,
            final(self).header().state == (if is_set(old(self).header().state, COMPLETED)
                || is_set(old(self).header().state, CLOSED) {
                old(self).header().state
            } else {
                old(self).header().state | CLOSED
            }),
            is_set(final(self).header().state, CLOSED) || is_set(
                final(self).header().state,
                COMPLETED,
            ),
    {
        let state: usize = self.header.state;
        proof {
            lemma_run_bits(state);
        }
        if state & (COMPLETED | CLOSED) == 0 {
            self.header.state = state | CLOSED;
        }
    }

    /// The next thing to do, once the future is gone: the task is not scheduled any more, and
    /// whoever waits for it is notified.
    pub fn unschedule(&mut self, woken: &mut Vec<Wake>)
        ensures
            final(self).niceness() == old(self).niceness(),
            other_bits(final(self).header().state) == other_bits(
                old(self).header().state & !SCHEDULED,
            ),
            ({
                let before = old(self).header();
                let after = final(self).header();
                let (awaited, registering, notifying) = waiting_bits(before.state);
                if !awaited {
                    &&& waiting_bits(after.state) == waiting_bits(before.state)
                    &&& after.awaiter == before.awaiter
                    &&& final(woken)@ == old(woken)@
                } else if registering || notifying {
                    // Whoever is between two steps will see to it.
                    &&& waiting_bits(after.state) == (true, registering, true)
                    &&& after.awaiter == before.awaiter
                    &&& final(woken)@ == old(woken)@
                } else {
                    &&& waiting_bits(after.state) == (false, false, false)
                    &&& after.awaiter is None
                    &&& final(woken)@ == (match before.awaiter {
                        Some(waker) => old(woken)@.push(Wake::Task(waker)),
                        None => old(woken)@,
                    })
                }
            }),
            !is_set(final(self).header().state, SCHEDULED),
            // Whoever waits is woken up, or will be by the one who is between two steps.
            is_set(old(self).header().state, AWAITER) ==> (old(self).header().awaiter matches Some(
                waker,
            ) ==> not_forgotten(waker, final(self).header(), old(woken)@, final(woken)@)),
            is_set(old(self).header().state, AWAITER) && final(self).header().awaiter is Some
                ==> is_set(final(self).header().state, NOTIFYING),
    {
        let state: usize = self.header.state;
        proof {
            lemma_run_bits(state);
        }
        self.header.state = state & !SCHEDULED;
        if state & AWAITER != 0 {
            self.header.notify(None, woken);
        }
        proof {
            lemma_scheduled_bit(self.header.state, state & !SCHEDULED);
        }
    }
}

} // verus!
