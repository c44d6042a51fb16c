//! A timer that goes off once or again and again.

use vstd::prelude::*;
use crate::io::reactor::{law_round, timers_processed, Reactor};
use crate::task::{Context, Nanos, Poll, Wake, Waker};

verus! {

/// The longest span of time.
pub const LONGEST: Nanos = 18_446_744_073_709_551_615_999_999_999;

/// The last moment that can be told.
pub const LAST_MOMENT: Nanos = 9_223_372_036_854_775_807_999_999_999;

/// The moment `span` after `when`, if it can be told.
pub open spec fn moment_after(when: Nanos, span: Nanos) -> Option<Nanos> {
    if when + span <= LAST_MOMENT {
        Some((when + span) as Nanos)
    } else {
        None
    }
}

/// A timer.
pub struct Timer {
    id_and_waker: Option<(usize, Waker)>,
    when: Nanos,
    period: Nanos,
}

impl Timer {
    /// The number that the timer has in the reactor, and whom it wakes up.
    pub closed spec fn registered(&self) -> Option<(usize, Waker)> {
        self.id_and_waker
    }

    /// When the timer goes off next.
    pub closed spec fn when(&self) -> Nanos {
        self.when
    }

    /// How long it is from one time to the next.
    pub closed spec fn period(&self) -> Nanos {
        self.period
    }

    /// The timer is not later than can be told.
    pub open spec fn wf(&self) -> bool {
        self.when() <= LAST_MOMENT && self.period() <= LONGEST
    }

    /// The reactor knows of the timer what the timer believes that it does: whom to wake up, and
    /// when.
    pub open spec fn armed(&self, reactor: &Reactor) -> bool {
        self.registered() matches Some((id, waker)) ==> reactor.timers().contains_pair(
            (self.when(), id),
            waker,
        )
    }

    /// The timer has a number of its own: no other timer that is to come has it.
    pub open spec fn numbered_before(&self, reactor: &Reactor) -> bool {
        self.registered() matches Some((id, _)) ==> id != reactor.next_timer_id()
    }

    /// Another timer has another number.
    pub open spec fn apart_from(&self, other: &Timer) -> bool {
        self.registered() is Some && other.registered() is Some ==> (self.registered()->0).0
            != (other.registered()->0).0
    }

    /// A timer that goes off once, `duration` after `now`.
    pub fn after(duration: Nanos, now: Nanos) -> (r: Timer)
        requires
            now + duration <= LAST_MOMENT,
        ensures
            r.wf(),
            r.registered() is None,
            r.when() == now + duration,
            r.period() == LONGEST,
    {
        Timer::at(now + duration)
    }

    /// A timer that goes off once.
    pub fn at(instant: Nanos) -> (r: Timer)
        requires
            instant <= LAST_MOMENT,
        ensures
            r.wf(),
            r.registered() is None,
            r.when() == instant,
            r.period() == LONGEST,
    {
        Timer::interval_at(instant, LONGEST)
    }

    /// A timer that goes off every `period`, for the first time a `period` after `now`.
    pub fn interval(period: Nanos, now: Nanos) -> (r: Timer)
        requires
            now + period <= LAST_MOMENT,
            period <= LONGEST,
        ensures
            r.wf(),
            r.registered() is None,
            r.when() == now + period,
            r.period() == period,
    {
        Timer::interval_at(now + period, period)
    }

    /// A timer that goes off every `period`, for the first time at `start`.
    pub fn interval_at(start: Nanos, period: Nanos) -> (r: Timer)
        requires
            start <= LAST_MOMENT,
            period <= LONGEST,
        ensures
            r.wf(),
            r.registered() is None,
            r.when() == start,
            r.period() == period,
    {
        Timer { id_and_waker: None, when: start, period }
    }

    /// The reactor, with this timer at the time `when` in place of where it was.
    pub open spec fn moved(&self, after: &Timer, reactor: &Reactor, reactor_after: &Reactor) -> bool {
        &&& reactor_after.wf()
        &&& reactor_after.round() == reactor.round()
        &&& reactor_after.same_sources(reactor)
        &&& match self.registered() {
            Some((id, waker)) => {
                &&& after.registered() == Some((reactor.next_timer_id(), waker))
                &&& reactor_after.next_timer_id() == reactor.next_timer_id().wrapping_add(1)
                &&& reactor_after.timers() == reactor.timers().remove((self.when(), id)).insert(
                    (after.when(), reactor.next_timer_id()),
                    waker,
                )
            },
            None => {
                &&& after.registered() is None
                &&& reactor_after.next_timer_id() == reactor.next_timer_id()
                &&& reactor_after.timers() == reactor.timers()
            },
        }
    }

    /// Makes the timer go off `duration` after `now`. Says whether the poller is to be notified.
    pub fn set_after(&mut self, reactor: &mut Reactor, duration: Nanos, now: Nanos) -> (r: bool)
        requires
            old(self).wf(),
            old(reactor).wf(),
            now + duration <= LAST_MOMENT,
        ensures
            final(self).wf(),
            final(self).when() == now + duration,
            final(self).period() == old(self).period(),
            old(self).moved(final(self), old(reactor), final(reactor)),
            final(self).armed(final(reactor)),
            forall|other: Timer| #[trigger]
                other.armed(old(reactor)) && other.numbered_before(old(reactor))
                    && other.apart_from(old(self)) ==> other.armed(final(reactor)),
            r == (old(self).registered() is Some),
    {
        self.set_at(reactor, now + duration)
    }

    /// Makes the timer go off at `instant`. Says whether the poller is to be notified.
    pub fn set_at(&mut self, reactor: &mut Reactor, instant: Nanos) -> (r: bool)
        requires
            old(self).wf(),
            old(reactor).wf(),
            instant <= LAST_MOMENT,
        ensures
            final(self).wf(),
            final(self).when() == instant,
            final(self).period() == old(self).period(),
            old(self).moved(final(self), old(reactor), final(reactor)),
            final(self).armed(final(reactor)),
            forall|other: Timer| #[trigger]
                other.armed(old(reactor)) && other.numbered_before(old(reactor))
                    && other.apart_from(old(self)) ==> other.armed(final(reactor)),
            r == (old(self).registered() is Some),
    {
        let registered = self.id_and_waker;
        match registered {
            Some((id, waker)) => {
                reactor.remove_timer(self.when, id);
                self.when = instant;
                let id = reactor.add_timer(self.when, &waker);
                self.id_and_waker = Some((id, waker));
                true
            },
            None => {
                self.when = instant;
                false
            },
        }
    }

    /// Makes the timer go off every `period`, for the first time a `period` after `now`. Says
    /// whether the poller is to be notified.
    pub fn set_interval(&mut self, reactor: &mut Reactor, period: Nanos, now: Nanos) -> (r: bool)
        requires
            old(self).wf(),
            old(reactor).wf(),
            now + period <= LAST_MOMENT,
            period <= LONGEST,
        ensures
            final(self).wf(),
            final(self).when() == now + period,
            final(self).period() == period,
            old(self).moved(final(self), old(reactor), final(reactor)),
            final(self).armed(final(reactor)),
            forall|other: Timer| #[trigger]
                other.armed(old(reactor)) && other.numbered_before(old(reactor))
                    && other.apart_from(old(self)) ==> other.armed(final(reactor)),
            r == (old(self).registered() is Some),
    {
        self.set_interval_at(reactor, now + period, period)
    }

    /// Makes the timer go off every `period`, for the first time at `start`. Says whether the
    /// poller is to be notified.
    pub fn set_interval_at(&mut self, reactor: &mut Reactor, start: Nanos, period: Nanos) -> (r:
        bool)
        requires
            old(self).wf(),
            old(reactor).wf(),
            start <= LAST_MOMENT,
            period <= LONGEST,
        ensures
            final(self).wf(),
            final(self).when() == start,
            final(self).period() == period,
            old(self).moved(final(self), old(reactor), final(reactor)),
            final(self).armed(final(reactor)),
            forall|other: Timer| #[trigger]
                other.armed(old(reactor)) && other.numbered_before(old(reactor))
                    && other.apart_from(old(self)) ==> other.armed(final(reactor)),
            r == (old(self).registered() is Some),
    {
        let r = self.set_at(reactor, start);
        self.period = period;
        r
    }

    /// What comes of asking at the time `now` whether the timer has gone off.
    pub open spec fn asked(
        &self,
        reactor: &Reactor,
        waker: Waker,
        now: Nanos,
        r: (Poll<Nanos>, bool),
        after: &Timer,
        reactor_after: &Reactor,
    ) -> bool {
        let was = self.registered();
        let id = reactor.next_timer_id();
        let without = match was {
            Some((id, _)) => reactor.timers().remove((self.when(), id)),
            None => reactor.timers(),
        };
        &&& after.wf()
        &&& reactor_after.wf()
        &&& reactor_after.round() == reactor.round()
        &&& reactor_after.same_sources(reactor)
        &&& after.period() == self.period()
        &&& if now >= self.when() {
            &&& r.0 == Poll::Ready(self.when())
            &&& match moment_after(self.when(), self.period()) {
                Some(next) => {
                    // It will go off again.
                    &&& r.1
                    &&& after.when() == next
                    &&& after.registered() == Some((id, waker))
                    &&& reactor_after.next_timer_id() == id.wrapping_add(1)
                    &&& reactor_after.timers() == without.insert((next, id), waker)
                },
                None => {
                    &&& !r.1
                    &&& after.when() == self.when()
                    &&& after.registered() is None
                    &&& reactor_after.next_timer_id() == id
                    &&& reactor_after.timers() == without
                },
            }
        } else {
            &&& r.0 == Poll::<Nanos>::Pending
            &&& after.when() == self.when()
            &&& if was matches Some((_, woken)) && woken == waker {
                &&& !r.1
                &&& after.registered() == was
                &&& reactor_after.next_timer_id() == id
                &&& reactor_after.timers() == reactor.timers()
            } else {
                &&& r.1
                &&& after.registered() == Some((id, waker))
                &&& reactor_after.next_timer_id() == id.wrapping_add(1)
                &&& reactor_after.timers() == without.insert((self.when(), id), waker)
            }
        }
    }

    /// Asks at the time `now` whether the timer has gone off, and when it was to. Says besides
    /// whether the poller is to be notified.
    pub fn poll_next(&mut self, reactor: &mut Reactor, cx: &Context, now: Nanos) -> (r: (
        Poll<Nanos>,
        bool,
    ))
        requires
            old(self).wf(),
            old(reactor).wf(),
        ensures
            old(self).asked(old(reactor), cx.waker, now, r, final(self), final(reactor)),
            // It goes off when it was to, and not before.
            r.0 is Ready <==> now >= old(self).when(),
            r.0 matches Poll::Ready(t) ==> t == old(self).when(),
            // The next time is a period after that, if it can be told, and otherwise never.
            r.0 is Ready && old(self).when() + old(self).period() <= LAST_MOMENT ==> final(self).when()
                == old(self).when() + old(self).period() && final(self).registered() is Some,
            r.0 is Ready && old(self).when() + old(self).period() > LAST_MOMENT
                ==> final(self).registered() is None,
            // Whoever is told to wait is woken up when it goes off.
            r.0 is Pending ==> final(self).when() == old(self).when()
                && final(self).registered() is Some,
            final(self).registered() matches Some((_, waker)) ==> waker == cx.waker,
            old(self).armed(old(reactor)) ==> final(self).armed(final(reactor)),
            r.1 ==> final(self).armed(final(reactor)),
            forall|other: Timer| #[trigger]
                other.armed(old(reactor)) && other.numbered_before(old(reactor))
                    && other.apart_from(old(self)) ==> other.armed(final(reactor)),
            // What it was in the reactor before is out.
            old(self).registered() matches Some((id, _)) ==> (final(self).registered() != old(self).registered()
                && id != old(reactor).next_timer_id() ==> !final(reactor).timers().contains_key(
                (old(self).when(), id),
            )),
    {
        let waker = cx.waker;
        if now >= self.when {
            match self.id_and_waker.take() {
                Some((id, _)) => reactor.remove_timer(self.when, id),
                None => {},
            }
            let when: Nanos = self.when;
            if when + self.period <= LAST_MOMENT {
                self.when = when + self.period;
                let id = reactor.add_timer(self.when, &waker);
                self.id_and_waker = Some((id, waker));
                return (Poll::Ready(when), true);
            }
            return (Poll::Ready(when), false);
        }
        match self.id_and_waker {
            None => {},
            Some((id, w)) => {
                if w.will_wake(&waker) {
                    return (Poll::Pending, false);
                }
                reactor.remove_timer(self.when, id);
            },
        }
        let id = reactor.add_timer(self.when, &waker);
        self.id_and_waker = Some((id, waker));
        (Poll::Pending, true)
    }

    /// Takes the timer out of the reactor.
    pub fn drop(self, reactor: &mut Reactor)
        requires
            old(reactor).wf(),
        ensures
            final(reactor).wf(),
            final(reactor).round() == old(reactor).round(),
            final(reactor).same_sources(old(reactor)),
            final(reactor).next_timer_id() == old(reactor).next_timer_id(),
            final(reactor).timers() == (match self.registered() {
                Some((id, _)) => old(reactor).timers().remove((self.when(), id)),
                None => old(reactor).timers(),
            }),
            self.registered() matches Some((id, _)) ==> !final(reactor).timers().contains_key(
                (self.when(), id),
            ),
            forall|other: Timer| #[trigger]
                other.armed(old(reactor)) && other.apart_from(&self) ==> other.armed(
                    final(reactor),
                ),
    {
        match self.id_and_waker {
            Some((id, _)) => reactor.remove_timer(self.when, id),
            None => {},
        }
    }
}

/// A timer that is to go off once does so once: there is no moment the longest span after it.
pub proof fn law_once(when: Nanos)
    ensures
        moment_after(when, LONGEST) is None,
{
}

/// A timer that is asked, or set to another time, stays in the reactor at the time at which it goes
/// off next, with whom it wakes up; and so do all others.
pub proof fn law_stays_armed(
    timer: &Timer,
    reactor: &Reactor,
    waker: Waker,
    now: Nanos,
    r: (Poll<Nanos>, bool),
    after: &Timer,
    reactor_after: &Reactor,
    other: &Timer,
)
    requires
        timer.armed(reactor),
        other.armed(reactor),
        other.numbered_before(reactor),
        other.apart_from(timer),
        timer.asked(reactor, waker, now, r, after, reactor_after) || timer.moved(
            after,
            reactor,
            reactor_after,
        ),
    ensures
        after.armed(reactor_after),
        other.armed(reactor_after),
        after.apart_from(other),
{
}

/// An interval goes off again and again, each time a period after the time before, whenever it is
/// asked: no time is left out, and none is put off because somebody asked late.
pub proof fn law_interval(
    timer: &Timer,
    reactor: &Reactor,
    waker: Waker,
    now: Nanos,
    r: (Poll<Nanos>, bool),
    after: &Timer,
    reactor_after: &Reactor,
)
    requires
        timer.asked(reactor, waker, now, r, after, reactor_after),
        timer.when() + timer.period() <= LAST_MOMENT,
    ensures
        now >= timer.when() ==> r.0 == Poll::Ready(timer.when()) && after.when() == timer.when()
            + timer.period() && (after.registered() matches Some((_, w)) && w == waker),
        now < timer.when() ==> r.0 is Pending && after.when() == timer.when()
            && (after.registered() matches Some((_, w)) && w == waker),
        after.period() == timer.period(),
{
}

/// A round of the reactor wakes up whoever waits for a timer if it was to go off before, and only
/// then; otherwise the timer stays where it is.
pub proof fn law_woken_in_time(
    timer: &Timer,
    reactor: &Reactor,
    reactor_after: &Reactor,
    now: Nanos,
    woken: Seq<Wake>,
    woken_after: Seq<Wake>,
    next: Option<Nanos>,
)
    requires
        timer.armed(reactor),
        timer.registered() is Some,
        timers_processed(reactor, reactor_after, now, woken, woken_after, next),
    ensures
        timer.when() < now ==> woken_after.contains(Wake::Task((timer.registered()->0).1)),
        timer.when() < now ==> !reactor_after.timers().contains_key(
            (timer.when(), (timer.registered()->0).0),
        ),
        timer.when() >= now ==> timer.armed(reactor_after),
        // The poller does not wait longer than until then.
        timer.when() >= now ==> next is Some && next->0 <= timer.when() - now,
{
    let key = (timer.when(), (timer.registered()->0).0);
    let waker = (timer.registered()->0).1;
    law_round(reactor, reactor_after, now, woken, woken_after, next, key);
}

} // verus!
