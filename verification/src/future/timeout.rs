//! Futures that are given up after some time.

use vstd::prelude::*;
use crate::future::future::{continues, Future};
use crate::io::reactor::Reactor;
use crate::io::timer::{Timer, LAST_MOMENT, LONGEST};
use crate::task::{Context, Nanos, Poll};

verus! {

/// The future was not done in time.
#[derive(Clone, Copy, Debug, PartialEq, Eq, Structural)]
pub struct TimeoutError {}

impl TimeoutError {
    pub fn to_string(&self) -> (r: String)
        ensures
            r@ == "future has timed out"@,
    {
        "future has timed out".to_string()
    }
}

/// A future that is done when another one is, or when some time has passed.
pub struct TimeoutFuture<F> {
    pub future: F,
    pub delay: Timer,
}

/// Gives up `f` if it is not done `dur` after `now`.
pub fn timeout<F>(dur: Nanos, f: F, now: Nanos) -> (r: TimeoutFuture<F>)
    requires
        now + dur <= LAST_MOMENT,
    ensures
        r.future == f,
        r.delay.wf(),
        r.delay.registered() is None,
        r.delay.when() == now + dur,
        r.delay.period() == LONGEST,
{
    TimeoutFuture { future: f, delay: Timer::after(dur, now) }
}

impl<F: Future> TimeoutFuture<F> {
    /// One poll at the time `now`, in which the future gave `inner`. The time counts only where
    /// the future is not done.
    pub open spec fn stepped(
        self,
        cx: Context,
        reactor: &Reactor,
        now: Nanos,
        inner: Poll<F::Output>,
        r: (Poll<Result<F::Output, TimeoutError>>, bool),
        next: Self,
        after: Context,
        reactor_after: &Reactor,
    ) -> bool {
        &&& self.future.polled(cx, inner, next.future, after)
        &&& match inner {
            Poll::Ready(v) => {
                &&& r == (Poll::Ready(Ok::<F::Output, TimeoutError>(v)), false)
                &&& next.delay == self.delay
                &&& *reactor_after == *reactor
            },
            Poll::Pending => {
                let due = if now >= self.delay.when() {
                    Poll::Ready(self.delay.when())
                } else {
                    Poll::Pending
                };
                &&& self.delay.asked(
                    reactor,
                    after.waker,
                    now,
                    (due, r.1),
                    &next.delay,
                    reactor_after,
                )
                &&& r.0 == (if now >= self.delay.when() {
                    Poll::Ready(Err::<F::Output, TimeoutError>(TimeoutError {  }))
                } else {
                    Poll::Pending
                })
            },
        }
    }

    /// What comes of polling it at the time `now`.
    pub open spec fn polled(
        self,
        cx: Context,
        reactor: &Reactor,
        now: Nanos,
        r: (Poll<Result<F::Output, TimeoutError>>, bool),
        next: Self,
        after: Context,
        reactor_after: &Reactor,
    ) -> bool {
        exists|inner: Poll<F::Output>| #[trigger]
            self.stepped(cx, reactor, now, inner, r, next, after, reactor_after)
    }

    /// Asks at the time `now` whether the future is done or has to be given up. Says besides
    /// whether the poller is to be notified.
    pub fn poll(&mut self, cx: &mut Context, reactor: &mut Reactor, now: Nanos) -> (r: (
        Poll<Result<F::Output, TimeoutError>>,
        bool,
    ))
        requires
            old(self).future.live(),
            old(self).delay.wf(),
            old(reactor).wf(),
        ensures
            old(self).polled(
                *old(cx),
                old(reactor),
                now,
                r,
                *final(self),
                *final(cx),
                final(reactor),
            ),
            continues(*old(cx), *final(cx)),
            final(self).delay.wf(),
            final(reactor).wf(),
            r.0 is Pending ==> final(self).future.live(),
            // It is given up at its time and not before, and whoever waits is woken up then.
            r.0 matches Poll::Ready(Err(_)) ==> now >= old(self).delay.when(),
            r.0 is Pending ==> {
                &&& now < old(self).delay.when()
                &&& final(self).delay.when() == old(self).delay.when()
                &&& final(self).delay.registered() matches Some((_, waker)) && waker
                    == final(cx).waker
            },
            old(self).delay.armed(old(reactor)) ==> final(self).delay.armed(final(reactor)),
    {
        match self.future.poll(cx) {
            Poll::Ready(v) => {
                let r = (Poll::Ready(Ok(v)), false);
                assert(old(self).stepped(
                    *old(cx),
                    old(reactor),
                    now,
                    Poll::Ready(v),
                    r,
                    *self,
                    *cx,
                    reactor,
                ));
                r
            },
            Poll::Pending => {
                let (due, notify) = self.delay.poll_next(reactor, cx, now);
                let r = match due {
                    Poll::Ready(_) => Poll::Ready(Err(TimeoutError {  })),
                    Poll::Pending => Poll::Pending,
                };
                assert(old(self).stepped(
                    *old(cx),
                    old(reactor),
                    now,
                    Poll::Pending,
                    (r, notify),
                    *self,
                    *cx,
                    reactor,
                ));
                (r, notify)
            },
        }
    }
}

/// A future is given up no earlier than its time, and at its time if it is not done.
pub proof fn law_in_time<F: Future>(
    timeout: TimeoutFuture<F>,
    cx: Context,
    reactor: &Reactor,
    now: Nanos,
    r: (Poll<Result<F::Output, TimeoutError>>, bool),
    next: TimeoutFuture<F>,
    after: Context,
    reactor_after: &Reactor,
)
    requires
        timeout.polled(cx, reactor, now, r, next, after, reactor_after),
    ensures
        r.0 matches Poll::Ready(Err(_)) ==> now >= timeout.delay.when(),
        now >= timeout.delay.when() ==> r.0 is Ready,
{
}

/// A future that is done is never given up, however late it is, and what it gave is what is
/// returned; one that is not done gives nothing.
pub proof fn law_done_in_any_case<F: Future>(
    timeout: TimeoutFuture<F>,
    cx: Context,
    reactor: &Reactor,
    now: Nanos,
    inner: Poll<F::Output>,
    r: (Poll<Result<F::Output, TimeoutError>>, bool),
    next: TimeoutFuture<F>,
    after: Context,
    reactor_after: &Reactor,
)
    requires
        timeout.stepped(cx, reactor, now, inner, r, next, after, reactor_after),
    ensures
        timeout.future.polled(cx, inner, next.future, after),
        inner matches Poll::Ready(v) ==> r.0 == Poll::Ready(Ok::<F::Output, TimeoutError>(v)),
        inner is Pending ==> !(r.0 matches Poll::Ready(Ok(_))),
        inner is Pending ==> ((r.0 is Ready) == (now >= timeout.delay.when())),
        r.0 is Pending ==> next.delay.when() == timeout.delay.when()
            && next.delay.registered() is Some,
{
}

} // verus!
