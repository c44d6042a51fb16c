//! A queue that holds one item.
//!
//! As in the ring of a [`Bounded`](super::bounded::Bounded) queue, a push first claims the slot
//! and then fills it, and a pop first claims it and then empties it.

use vstd::prelude::*;
use crate::platform::queue::{PopError, PushError};

verus! {

/// Somebody is about to fill or to empty the slot.
const LOCKED: usize = 1;

/// The slot is filled, or about to be.
const PUSHED: usize = 2;

const CLOSED: usize = 4;

/// A queue of one item.
pub struct Single<T> {
    state: usize,
    slot: Option<T>,
}

/// What the one slot is in the middle of.
pub enum Stage<T> {
    Vacant,
    /// Claimed for a push.
    Filling,
    Filled(T),
    /// Claimed for a pop.
    Leaving(T),
}

/// What came of the first step of a push.
#[derive(Clone, Copy, Debug, PartialEq, Eq, Structural)]
pub enum SinglePush {
    Claimed,
    Full,
    Closed,
}

/// What came of the first step of a pop.
#[derive(Clone, Copy, Debug, PartialEq, Eq, Structural)]
pub enum SinglePop {
    Claimed,
    Empty,
    Closed,
    /// Another thread is about to fill the slot: try again.
    Busy,
}

spec fn bit_set(state: usize, bit: usize) -> bool {
    state & bit != 0
}

proof fn lemma_bits(s: usize)
    by (bit_vector)
    ensures
        s < 8 ==> {
            &&& (s == 0) == (!bit_set(s, 1) && !bit_set(s, 2) && !bit_set(s, 4))
            &&& (s | 4) < 8 && bit_set(s | 4, 4) && bit_set(s | 4, 1) == bit_set(s, 1) && bit_set(s | 4, 2)
                == bit_set(s, 2)
            &&& (s & !1) < 8 && !bit_set(s & !1, 1) && bit_set(s & !1, 2) == bit_set(s, 2) && bit_set(s & !1, 4)
                == bit_set(s, 4)
            &&& ((s | 1) & !2) < 8 && bit_set((s | 1) & !2, 1) && !bit_set((s | 1) & !2, 2) && bit_set(
                (s | 1) & !2,
                4,
            ) == bit_set(s, 4)
        },
        (1usize | 2usize) < 8 && bit_set(1usize | 2usize, 1) && bit_set(1usize | 2usize, 2) && !bit_set(1usize | 2usize, 4),
{
}

impl<T> Single<T> {
    pub closed spec fn wf(&self) -> bool {
        &&& self.state < 8
        &&& (self.slot is Some) == (bit_set(self.state, PUSHED) != bit_set(self.state, LOCKED))
    }

    pub closed spec fn stage(&self) -> Stage<T> {
        match (bit_set(self.state, PUSHED), bit_set(self.state, LOCKED)) {
            (true, true) => Stage::Filling,
            (true, false) => Stage::Filled(self.slot->0),
            (false, true) => Stage::Leaving(self.slot->0),
            (false, false) => Stage::Vacant,
        }
    }

    pub closed spec fn closed(&self) -> bool {
        bit_set(self.state, CLOSED)
    }

    /// Nothing is claimed at present.
    pub open spec fn settled(&self) -> bool {
        self.stage() is Vacant || self.stage() is Filled
    }

    /// The items, where nothing is claimed.
    pub open spec fn items(&self) -> Seq<T> {
        match self.stage() {
            Stage::Filled(value) => seq![value],
            _ => Seq::empty(),
        }
    }

    pub fn new() -> (r: Self)
        ensures
            r.wf(),
            r.stage() is Vacant,
            !r.closed(),
    {
        proof {
            lemma_bits(0);
        }
        Single { state: 0, slot: None }
    }

    /// The first step of a push: claims the slot if it is vacant. A slot that is about to be
    /// emptied still counts as full.
    pub fn start_push(&mut self) -> (r: SinglePush)
        requires
            old(self).wf(),
        ensures
            final(self).wf(),
            final(self).closed() == old(self).closed(),
            r == (if old(self).closed() {
                SinglePush::Closed
            } else if old(self).stage() is Vacant {
                SinglePush::Claimed
            } else {
                SinglePush::Full
            }),
            r is Claimed ==> final(self).stage() is Filling,
            !(r is Claimed) ==> final(self).stage() == old(self).stage(),
    {
        proof {
            lemma_bits(self.state);
        }
        if self.state == 0 {
            self.state = LOCKED | PUSHED;
            SinglePush::Claimed
        } else if self.state & CLOSED != 0 {
            SinglePush::Closed
        } else {
            SinglePush::Full
        }
    }

    /// The second step of a push: fills the slot.
    pub fn finish_push(&mut self, value: T)
        requires
            old(self).wf(),
            old(self).stage() is Filling,
        ensures
            final(self).wf(),
            final(self).closed() == old(self).closed(),
            final(self).stage() == Stage::Filled(value),
    {
        proof {
            lemma_bits(self.state);
        }
        self.slot = Some(value);
        self.state = self.state & !LOCKED;
    }

    /// The first step of a pop: claims the slot if it is filled.
    pub fn start_pop(&mut self) -> (r: SinglePop)
        requires
            old(self).wf(),
        ensures
            final(self).wf(),
            final(self).closed() == old(self).closed(),
            match old(self).stage() {
                Stage::Filled(value) => r is Claimed && final(self).stage() == Stage::Leaving(
                    value,
                ),
                Stage::Filling => r is Busy && final(self).stage() == old(self).stage(),
                _ => r == (if old(self).closed() {
                    SinglePop::Closed
                } else {
                    SinglePop::Empty
                }) && final(self).stage() == old(self).stage(),
            },
    {
        proof {
            lemma_bits(self.state);
        }
        let state: usize = self.state;
        if state & PUSHED == 0 {
            if state & CLOSED == 0 {
                SinglePop::Empty
            } else {
                SinglePop::Closed
            }
        } else if state & LOCKED == 0 {
            self.state = (state | LOCKED) & !PUSHED;
            SinglePop::Claimed
        } else {
            SinglePop::Busy
        }
    }

    /// The second step of a pop: empties the slot.
    pub fn finish_pop(&mut self) -> (r: T)
        requires
            old(self).wf(),
            old(self).stage() is Leaving,
        ensures
            final(self).wf(),
            final(self).closed() == old(self).closed(),
            final(self).stage() is Vacant,
            old(self).stage() == Stage::Leaving(r),
    {
        proof {
            lemma_bits(self.state);
        }
        let value = self.slot.take();
        self.state = self.state & !LOCKED;
        value.unwrap()
    }

    pub fn push(&mut self, value: T) -> (r: Result<(), PushError<T>>)
        requires
            old(self).wf(),
            old(self).settled(),
        ensures
            final(self).wf(),
            final(self).settled(),
            final(self).closed() == old(self).closed(),
            r == (if old(self).closed() {
                Err(PushError::Closed(value))
            } else if old(self).items().len() == 1 {
                Err(PushError::Full(value))
            } else {
                Ok::<(), PushError<T>>(())
            }),
            r is Ok ==> final(self).items() == old(self).items().push(value),
            r is Err ==> final(self).items() == old(self).items(),
    {
        match self.start_push() {
            SinglePush::Claimed => {
                self.finish_push(value);
                assert(old(self).items().push(value) =~= seq![value]);
                Ok(())
            },
            SinglePush::Full => Err(PushError::Full(value)),
            SinglePush::Closed => Err(PushError::Closed(value)),
        }
    }

    pub fn pop(&mut self) -> (r: Result<T, PopError>)
        requires
            old(self).wf(),
            old(self).settled(),
        ensures
            final(self).wf(),
            final(self).settled(),
            final(self).closed() == old(self).closed(),
            r == (if old(self).items().len() == 1 {
                Ok(old(self).items()[0])
            } else if old(self).closed() {
                Err(PopError::Closed)
            } else {
                Err(PopError::Empty)
            }),
            r is Ok ==> final(self).items() == old(self).items().drop_first(),
            r is Err ==> final(self).items() == old(self).items(),
    {
        match self.start_pop() {
            SinglePop::Claimed => {
                let value = self.finish_pop();
                assert(old(self).items().drop_first() =~= Seq::<T>::empty());
                Ok(value)
            },
            SinglePop::Empty => Err(PopError::Empty),
            SinglePop::Closed => Err(PopError::Closed),
            SinglePop::Busy => Err(PopError::Empty),
        }
    }

    /// One from the moment that the slot is claimed for a push until it is claimed for a pop.
    pub fn len(&self) -> (r: usize)
        requires
            self.wf(),
        ensures
            r == (if self.stage() is Filling || self.stage() is Filled {
                1usize
            } else {
                0
            }),
    {
        if self.state & PUSHED == 0 {
            0
        } else {
            1
        }
    }

    pub fn is_empty(&self) -> (r: bool)
        requires
            self.wf(),
        ensures
            r == (self.stage() is Vacant || self.stage() is Leaving),
    {
        self.len() == 0
    }

    pub fn is_full(&self) -> (r: bool)
        requires
            self.wf(),
        ensures
            r == (self.stage() is Filling || self.stage() is Filled),
    {
        self.len() == 1
    }

    /// Closes the queue; says whether it was open until now.
    pub fn close(&mut self) -> (r: bool)
        requires
            old(self).wf(),
        ensures
            final(self).wf(),
            final(self).closed(),
            final(self).stage() == old(self).stage(),
            r == !old(self).closed(),
    {
        proof {
            lemma_bits(self.state);
        }
        let state: usize = self.state;
        self.state = state | CLOSED;
        state & CLOSED == 0
    }

    pub fn is_closed(&self) -> (r: bool)
        ensures
            r == self.closed(),
    {
        self.state & CLOSED != 0
    }
}

} // verus!
