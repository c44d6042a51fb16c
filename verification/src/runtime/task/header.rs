//! What all handles of a task share.

use vstd::prelude::*;
use crate::runtime::task::state::{
    is_set, lemma_waiting_bits, other_bits, waiting_bits, AWAITER, NOTIFYING, REGISTERING,
};
use crate::task::{Wake, Waker};

verus! {

/// The state of a task, and who waits for its output.
///
/// One thread registers a waker while another one may notify it. Each of the two takes two steps,
/// and a bit of the state says that it is between them.
pub struct Header {
    pub state: usize,
    pub awaiter: Option<Waker>,
}

/// Whom to notify: the one who waits, unless it is the one who notifies.
pub open spec fn to_notify(awaiter: Option<Waker>, current: Option<Waker>) -> Option<Waker> {
    if awaiter is Some && awaiter == current {
        None
    } else {
        awaiter
    }
}

/// Nobody who waits is forgotten: after something was done, they still wait, or were woken up.
pub open spec fn not_forgotten(
    waker: Waker,
    header: Header,
    woken: Seq<Wake>,
    woken_after: Seq<Wake>,
) -> bool {
    ||| header.awaiter == Some(waker) && woken_after == woken
    ||| woken_after == woken.push(Wake::Task(waker)) && header.awaiter != Some(waker)
    ||| woken_after == woken.push(Wake::Task(waker)) && is_set(header.state, NOTIFYING)
}

impl Header {
    /// What the first step of taking the waker out does.
    pub open spec fn takes_first(self, r: bool, after: Header) -> bool {
        &&& r == (!is_set(self.state, NOTIFYING) && !is_set(self.state, REGISTERING))
        &&& after.awaiter == self.awaiter
        &&& is_set(after.state, NOTIFYING)
        &&& is_set(after.state, REGISTERING) == is_set(self.state, REGISTERING)
        &&& is_set(after.state, AWAITER) == is_set(self.state, AWAITER)
        &&& other_bits(after.state) == other_bits(self.state)
    }

    /// What the second step of taking the waker out does.
    pub open spec fn takes_second(
        self,
        current: Option<Waker>,
        r: Option<Waker>,
        after: Header,
    ) -> bool {
        &&& r == to_notify(self.awaiter, current)
        &&& after.awaiter is None
        &&& waiting_bits(after.state) == (false, is_set(self.state, REGISTERING), false)
        &&& other_bits(after.state) == other_bits(self.state)
    }

    /// What the first step of registering a waker does.
    pub open spec fn registers_first(
        self,
        waker: Waker,
        woken: Seq<Wake>,
        r: bool,
        after: Header,
        woken_after: Seq<Wake>,
    ) -> bool {
        &&& r == !is_set(self.state, NOTIFYING)
        &&& other_bits(after.state) == other_bits(self.state)
        &&& r ==> {
            &&& after.awaiter == Some(waker)
            &&& waiting_bits(after.state) == (is_set(self.state, AWAITER), true, false)
            &&& woken_after == woken
        }
        &&& !r ==> {
            &&& after == self
            &&& woken_after == woken.push(Wake::Task(waker))
        }
    }

    /// What the second step of registering a waker does.
    pub open spec fn registers_second(
        self,
        woken: Seq<Wake>,
        after: Header,
        woken_after: Seq<Wake>,
    ) -> bool {
        &&& other_bits(after.state) == other_bits(self.state)
        &&& if is_set(self.state, NOTIFYING) && self.awaiter is Some {
            &&& woken_after == woken.push(Wake::Task(self.awaiter->0))
            &&& after.awaiter is None
            &&& waiting_bits(after.state) == (false, false, false)
        } else {
            &&& woken_after == woken
            &&& after.awaiter == self.awaiter
            &&& waiting_bits(after.state) == (true, false, false)
        }
    }

    /// The first step of taking the waker out; says whether there is a second one, which there is
    /// unless somebody else is between two steps.
    pub fn begin_take(&mut self) -> (r: bool)
        ensures
            old(self).takes_first(r, *final(self)),
    {
        let state: usize = self.state;
        proof {
            lemma_waiting_bits(state);
        }
        self.state = state | NOTIFYING;
        state & (NOTIFYING | REGISTERING) == 0
    }

    /// The second step of taking the waker out.
    pub fn finish_take(&mut self, current: Option<&Waker>) -> (r: Option<Waker>)
        ensures
            old(self).takes_second(
                match current {
                    Some(waker) => Some(*waker),
                    None => None,
                },
                r,
                *final(self),
            ),
            // Whoever waited is handed out, unless they are the one who notifies.
            old(self).awaiter matches Some(waker) ==> r == Some(waker) || (r is None && current
                == Some(&waker)),
    {
        let waker = self.awaiter.take();
        proof {
            lemma_waiting_bits(self.state);
        }
        self.state = self.state & !NOTIFYING & !AWAITER;
        match waker {
            Some(w) => match current {
                None => Some(w),
                Some(c) => if !w.will_wake(c) {
                    Some(w)
                } else {
                    None
                },
            },
            None => None,
        }
    }

    /// Takes the waker out, unless it is `current`.
    pub fn take(&mut self, current: Option<&Waker>) -> (r: Option<Waker>)
        ensures
            other_bits(final(self).state) == other_bits(old(self).state),
            if is_set(old(self).state, NOTIFYING) || is_set(old(self).state, REGISTERING) {
                // Whoever is between two steps will see to it.
                &&& r is None
                &&& final(self).awaiter == old(self).awaiter
                &&& waiting_bits(final(self).state) == (
                    is_set(old(self).state, AWAITER),
                    is_set(old(self).state, REGISTERING),
                    true,
                )
            } else {
                &&& r == to_notify(
                    old(self).awaiter,
                    match current {
                        Some(waker) => Some(*waker),
                        None => None,
                    },
                )
                &&& final(self).awaiter is None
                &&& waiting_bits(final(self).state) == (false, false, false)
            },
            old(self).awaiter matches Some(waker) ==> r == Some(waker) || final(self).awaiter
                == Some(waker) || current == Some(&waker),
            // Where somebody registers, they will find that they are notified.
            is_set(old(self).state, REGISTERING) ==> is_set(final(self).state, NOTIFYING),
    {
        if self.begin_take() {
            self.finish_take(current)
        } else {
            None
        }
    }

    /// Notifies whoever waits, unless it is `current`.
    pub fn notify(&mut self, current: Option<&Waker>, woken: &mut Vec<Wake>)
        ensures
            other_bits(final(self).state) == other_bits(old(self).state),
            if is_set(old(self).state, NOTIFYING) || is_set(old(self).state, REGISTERING) {
                &&& final(woken)@ == old(woken)@
                &&& final(self).awaiter == old(self).awaiter
                &&& waiting_bits(final(self).state) == (
                    is_set(old(self).state, AWAITER),
                    is_set(old(self).state, REGISTERING),
                    true,
                )
            } else {
                &&& final(woken)@ == (match to_notify(
                    old(self).awaiter,
                    match current {
                        Some(waker) => Some(*waker),
                        None => None,
                    },
                ) {
                    Some(waker) => old(woken)@.push(Wake::Task(waker)),
                    None => old(woken)@,
                })
                &&& final(self).awaiter is None
                &&& waiting_bits(final(self).state) == (false, false, false)
            },
            // Whoever waits is woken up, or will be by the one who is between two steps.
            old(self).awaiter matches Some(waker) ==> current == Some(&waker) || not_forgotten(
                waker,
                *final(self),
                old(woken)@,
                final(woken)@,
            ),
            final(self).awaiter is Some ==> is_set(final(self).state, NOTIFYING),
            is_set(old(self).state, REGISTERING) ==> is_set(final(self).state, NOTIFYING),
    {
        match self.take(current) {
            Some(waker) => woken.push(Wake::Task(waker)),
            None => {},
        }
    }

    /// The first step of registering a waker; says whether there is a second one. There is none if
    /// somebody is about to notify: then the waker is woken up at once.
    pub fn begin_register(&mut self, waker: &Waker, woken: &mut Vec<Wake>) -> (r: bool)
        requires
            !is_set(old(self).state, REGISTERING),
        ensures
            old(self).registers_first(*waker, old(woken)@, r, *final(self), final(woken)@),
            not_forgotten(*waker, *final(self), old(woken)@, final(woken)@),
    {
        let state: usize = self.state;
        proof {
            lemma_waiting_bits(state);
        }
        if state & NOTIFYING != 0 {
            woken.push(Wake::Task(*waker));
            return false;
        }
        self.state = state | REGISTERING;
        self.awaiter = Some(*waker);
        true
    }

    /// The second step of registering a waker. If somebody wanted to notify in the meantime, the
    /// waker is woken up now.
    pub fn finish_register(&mut self, woken: &mut Vec<Wake>)
        requires
            is_set(old(self).state, REGISTERING),
        ensures
            old(self).registers_second(old(woken)@, *final(self), final(woken)@),
            old(self).awaiter matches Some(waker) ==> not_forgotten(
                waker,
                *final(self),
                old(woken)@,
                final(woken)@,
            ),
            // Nobody goes on to wait who was to be notified.
            is_set(old(self).state, NOTIFYING) ==> final(self).awaiter is None,
            is_set(final(self).state, AWAITER) || final(self).awaiter is None,
            !is_set(final(self).state, NOTIFYING) && !is_set(final(self).state, REGISTERING),
    {
        let state: usize = self.state;
        proof {
            lemma_waiting_bits(state);
        }
        let mut waker = None;
        if state & NOTIFYING != 0 {
            waker = self.awaiter.take();
        }
        self.state = if waker.is_none() {
            (state & !NOTIFYING & !REGISTERING) | AWAITER
        } else {
            state & !NOTIFYING & !REGISTERING & !AWAITER
        };
        match waker {
            Some(waker) => woken.push(Wake::Task(waker)),
            None => {},
        }
    }

    /// Registers a waker.
    pub fn register(&mut self, waker: &Waker, woken: &mut Vec<Wake>)
        requires
            !is_set(old(self).state, REGISTERING),
        ensures
            other_bits(final(self).state) == other_bits(old(self).state),
            if is_set(old(self).state, NOTIFYING) {
                &&& *final(self) == *old(self)
                &&& final(woken)@ == old(woken)@.push(Wake::Task(*waker))
            } else {
                &&& final(self).awaiter == Some(*waker)
                &&& waiting_bits(final(self).state) == (true, false, false)
                &&& final(woken)@ == old(woken)@
            },
            not_forgotten(*waker, *final(self), old(woken)@, final(woken)@),
    {
        if self.begin_register(waker, woken) {
            self.finish_register(woken);
        }
    }
}

/// A notification that comes while a waker is being registered is not lost: it wakes up that waker.
pub proof fn law_no_lost_notification(before: Header, between: Header, waker: Waker)
    requires
        // The first step of registering was made.
        before.awaiter == Some(waker),
        waiting_bits(before.state).1,
        // Then somebody began to take the waker out.
        between.awaiter == before.awaiter,
        between.state == before.state | NOTIFYING,
    ensures
        // They leave it at that, and the second step of registering finds it.
        is_set(between.state, NOTIFYING) && is_set(between.state, REGISTERING),
        to_notify(between.awaiter, None) == Some(waker),
{
    lemma_waiting_bits(before.state);
}

/// Whoever waits is notified, unless they are the very one who notifies; where nobody waits, nobody
/// is.
pub proof fn law_whom_to_notify(waker: Waker, current: Option<Waker>)
    ensures
        to_notify(None, current) is None,
        to_notify(Some(waker), None) == Some(waker),
        current != Some(waker) ==> to_notify(Some(waker), current) == Some(waker),
        to_notify(Some(waker), Some(waker)) is None,
{
}

/// Whoever registers and is not disturbed waits, and whoever notifies after that gets their waker, so
/// that nobody waits any more.
pub proof fn law_registered_is_notified(
    before: Header,
    waker: Waker,
    woken: Seq<Wake>,
    begun: Header,
    waiting: Header,
    woken_after: Seq<Wake>,
    first: bool,
    between: Header,
    r: Option<Waker>,
    after: Header,
)
    requires
        before.registers_first(waker, woken, true, begun, woken),
        begun.registers_second(woken, waiting, woken_after),
        waiting.takes_first(first, between),
        between.takes_second(None, r, after),
    ensures
        !is_set(before.state, NOTIFYING),
        waiting.awaiter == Some(waker) && is_set(waiting.state, AWAITER) && woken_after == woken,
        first,
        r == Some(waker),
        after.awaiter is None,
        waiting_bits(after.state) == (false, false, false),
{
}

/// Whoever notifies while somebody registers leaves it to them, and they are woken up by their own
/// second step: they do not wait.
pub proof fn law_notified_while_registering(
    before: Header,
    waker: Waker,
    woken: Seq<Wake>,
    begun: Header,
    second: bool,
    told: Header,
    after: Header,
    woken_after: Seq<Wake>,
)
    requires
        before.registers_first(waker, woken, true, begun, woken),
        begun.takes_first(second, told),
        told.registers_second(woken, after, woken_after),
    ensures
        !second,
        woken_after == woken.push(Wake::Task(waker)),
        after.awaiter is None,
        waiting_bits(after.state) == (false, false, false),
{
}

/// Whoever registers while somebody notifies is woken up at once, and what the other does is left as it
/// was: they still get the waker of whoever waited before.
pub proof fn law_registers_while_notified(
    before: Header,
    first: bool,
    begun: Header,
    waker: Waker,
    woken: Seq<Wake>,
    second: bool,
    between: Header,
    woken_after: Seq<Wake>,
    r: Option<Waker>,
    after: Header,
)
    requires
        before.takes_first(first, begun),
        first,
        begun.registers_first(waker, woken, second, between, woken_after),
        between.takes_second(None, r, after),
    ensures
        !second,
        woken_after == woken.push(Wake::Task(waker)),
        r == before.awaiter,
        waiting_bits(after.state) == (false, false, false),
{
}

} // verus!
