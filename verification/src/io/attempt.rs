//! Doing something that must not block, again and again until it is done.

use vstd::prelude::*;
use crate::future::future::{continues, Future};
use crate::io::error::{Error, ErrorKind};
use crate::io::reactor::Reactor;
use crate::io::source::{Direction, Readiness};
use crate::net::polling::Event;
use crate::task::{Context, Poll};

verus! {

/// It cannot be done without blocking.
pub open spec fn would_block<T>(res: Result<T, Error>) -> bool {
    res matches Err(e) && e.kind == ErrorKind::WouldBlock
}

fn is_blocked<T>(res: &Result<T, Error>) -> (r: bool)
    ensures
        r == would_block(*res),
{
    match res {
        Ok(_) => false,
        Err(e) => e.kind() == ErrorKind::WouldBlock,
    }
}

/// What came of trying something, unless it is to be tried again when there is something to be had:
/// `kind` is what kind of error `res` is, if it is one.
pub fn settled<T, E>(res: Result<T, E>, kind: Option<ErrorKind>) -> (r: Option<Result<T, E>>)
    ensures
        r == (if kind == Some(ErrorKind::WouldBlock) {
            None
        } else {
            Some(res)
        }),
{
    match kind {
        Some(ErrorKind::WouldBlock) => None,
        _ => Some(res),
    }
}

/// What is to be done next.
pub enum Step<T> {
    /// Try once more.
    Again,
    /// It is done.
    Done(Result<T, Error>),
    /// Nothing yet; the task will be woken up. If there is an event, the poller is to be told of
    /// this interest, and an error of that is the result.
    Wait(Option<Event>),
}

/// What asking the socket must have given for `r` to be next.
pub open spec fn readiness<T>(r: Step<T>) -> Readiness {
    match r {
        Step::Wait(event) => Readiness::Pending(event),
        _ => Readiness::Ready,
    }
}

/// Takes what came of trying something with the socket `key`. If it would block, asks whether the
/// socket is ready, for whoever polls it.
pub fn tried<T>(
    res: Result<T, Error>,
    reactor: &mut Reactor,
    key: usize,
    dir: Direction,
    cx: &mut Context,
) -> (r: Step<T>)
    requires
        old(reactor).wf(),
        old(reactor).has_source(key),
    ensures
        if would_block(res) {
            &&& !(r is Done)
            &&& old(reactor).asked(key, dir, old(cx), readiness(r), final(reactor), final(cx))
        } else {
            &&& r == Step::Done(res)
            &&& *final(reactor) == *old(reactor)
            &&& *final(cx) == *old(cx)
        },
        // Whatever could be done is told as it came out.
        res is Ok ==> r == Step::Done(res),
        res matches Err(e) ==> (r is Done <==> !(e.kind is WouldBlock)),
        r matches Step::Done(done) ==> done == res,
{
    if !is_blocked(&res) {
        return Step::Done(res);
    }
    match reactor.poll_ready(key, dir, cx) {
        Readiness::Ready => Step::Again,
        Readiness::Pending(event) => Step::Wait(event),
    }
}

/// Nothing is tried more than twice in one go: a socket that was found to be ready is not ready
/// again at once.
pub proof fn law_tried_twice(
    reactor: &Reactor,
    key: usize,
    dir: Direction,
    cx: &Context,
    between: &Reactor,
    cx_between: &Context,
    second: Readiness,
    after: &Reactor,
    cx_after: &Context,
)
    requires
        reactor.has_source(key),
        reactor.asked(key, dir, cx, Readiness::Ready, between, cx_between),
        between.asked(key, dir, cx_between, second, after, cx_after),
    ensures
        second is Pending,
{
}

/// Waits for a socket, but only until it is polled for the second time: whatever the future says
/// then, it is worth another try.
pub struct Optimistic<F> {
    pub fut: F,
    pub polled: bool,
}

pub fn optimistic<F: Future<Output = Result<(), Error>>>(fut: F) -> (r: Optimistic<F>)
    ensures
        r.fut == fut,
        !r.polled,
{
    Optimistic { fut, polled: false }
}

impl<F: Future<Output = Result<(), Error>>> Future for Optimistic<F> {
    type Output = Result<(), Error>;

    open spec fn live(&self) -> bool {
        self.polled || self.fut.live()
    }

    open spec fn polled(
        self,
        cx: Context,
        r: Poll<Result<(), Error>>,
        next: Self,
        after: Context,
    ) -> bool {
        &&& next.polled
        &&& if self.polled {
            &&& r == Poll::Ready(Ok::<(), Error>(()))
            &&& next.fut == self.fut
            &&& after == cx
        } else {
            self.fut.polled(cx, r, next.fut, after)
        }
    }

    fn poll(&mut self, cx: &mut Context) -> (r: Poll<Result<(), Error>>) {
        if !self.polled {
            self.polled = true;
            self.fut.poll(cx)
        } else {
            Poll::Ready(Ok(()))
        }
    }
}

/// One direction of a stream, with the future that waits for it, if somebody does.
pub struct Side<F> {
    pub waiting: Option<F>,
}

impl<F: Future<Output = Result<(), Error>>> Side<F> {
    pub open spec fn live(&self) -> bool {
        self.waiting matches Some(f) ==> f.live()
    }

    pub fn new() -> (r: Self)
        ensures
            r.waiting is None,
    {
        Side { waiting: None }
    }

    /// Takes what came of trying something. If it would block, there is nothing to return yet,
    /// and else there is nothing to wait for any more.
    pub fn tried<T>(&mut self, res: Result<T, Error>) -> (r: Option<Result<T, Error>>)
        ensures
            if would_block(res) {
                r is None && *final(self) == *old(self)
            } else {
                r == Some(res) && final(self).waiting is None
            },
            res is Ok ==> r == Some(res),
            res matches Err(e) ==> (r is None <==> e.kind is WouldBlock),
            r matches Some(done) ==> done == res && final(self).waiting is None,
    {
        if is_blocked(&res) {
            return None;
        }
        self.waiting = None;
        Some(res)
    }

    /// Waiting with `f` gave `r`.
    pub open spec fn waited(
        f: F,
        cx: Context,
        r: Poll<Result<(), Error>>,
        f_after: F,
        next: Self,
        after: Context,
    ) -> bool {
        &&& f.polled(cx, r, f_after, after)
        &&& next.waiting == (if r is Pending {
            Some(f_after)
        } else {
            None
        })
    }

    /// Waits, with the future that `start` makes if nobody waits yet. It is to be tried again
    /// when that has succeeded.
    pub fn poll_wait<S: FnOnce() -> F>(&mut self, cx: &mut Context, start: S) -> (r: Poll<
        Result<(), Error>,
    >)
        requires
            old(self).live(),
            old(self).waiting is None ==> {
                &&& call_requires(start, ())
                &&& forall|f: F| #[trigger] call_ensures(start, (), f) ==> f.live()
            },
        ensures
            final(self).live(),
            continues(*old(cx), *final(cx)),
            exists|f: F, f_after: F|
                {
                    &&& #[trigger] Self::waited(f, *old(cx), r, f_after, *final(self), *final(cx))
                    &&& match old(self).waiting {
                        Some(waiting) => f == waiting,
                        None => call_ensures(start, (), f),
                    }
                },
            // It goes on to wait exactly if there is nothing to tell yet.
            (r is Pending) == (final(self).waiting is Some),
    {
        let mut f = match self.waiting.take() {
            Some(f) => f,
            None => start(),
        };
        let ghost asked = f;
        let r = f.poll(cx);
        let ghost f_after = f;
        if r.is_pending() {
            self.waiting = Some(f);
        }
        assert(Self::waited(asked, *old(cx), r, f_after, *self, *cx));
        r
    }
}

/// Those who connect to a listener, one after the other. `F` waits for the next one.
pub struct Incoming<F> {
    pub accept: Option<F>,
}

impl<S, A, F: Future<Output = Result<(S, A), Error>>> Incoming<F> {
    pub open spec fn live(&self) -> bool {
        self.accept matches Some(f) ==> f.live()
    }

    pub fn new() -> (r: Self)
        ensures
            r.accept is None,
    {
        Incoming { accept: None }
    }

    /// Waiting with `f` gave `res`.
    pub open spec fn accepted(
        f: F,
        cx: Context,
        res: Poll<Result<(S, A), Error>>,
        f_after: F,
        r: Poll<Option<Result<S, Error>>>,
        next: Self,
        after: Context,
    ) -> bool {
        &&& f.polled(cx, res, f_after, after)
        &&& match res {
            Poll::Pending => r is Pending && next.accept == Some(f_after),
            Poll::Ready(Ok((stream, _))) => {
                &&& r == Poll::Ready(Some(Ok::<S, Error>(stream)))
                &&& next.accept is None
            },
            Poll::Ready(Err(e)) => {
                &&& r == Poll::Ready(Some(Err::<S, Error>(e)))
                &&& next.accept is None
            },
        }
    }

    /// Asks for the next one who connects. If nobody waits for it yet, `start` makes the future
    /// that does.
    pub fn poll_next<M: FnOnce() -> F>(&mut self, cx: &mut Context, start: M) -> (r: Poll<
        Option<Result<S, Error>>,
    >)
        requires
            old(self).live(),
            old(self).accept is None ==> {
                &&& call_requires(start, ())
                &&& forall|f: F| #[trigger] call_ensures(start, (), f) ==> f.live()
            },
        ensures
            final(self).live(),
            continues(*old(cx), *final(cx)),
            exists|f: F, res: Poll<Result<(S, A), Error>>, f_after: F|
                {
                    &&& #[trigger] Self::accepted(
                        f,
                        *old(cx),
                        res,
                        f_after,
                        r,
                        *final(self),
                        *final(cx),
                    )
                    &&& match old(self).accept {
                        Some(accept) => f == accept,
                        None => call_ensures(start, (), f),
                    }
                },
            // It goes on to wait exactly if there is nothing to tell yet, and there is no end to it.
            (r is Pending) == (final(self).accept is Some),
            r matches Poll::Ready(stream) ==> stream is Some,
    {
        let mut f = match self.accept.take() {
            Some(f) => f,
            None => start(),
        };
        let ghost asked = f;
        match f.poll(cx) {
            Poll::Pending => {
                let ghost f_after = f;
                self.accept = Some(f);
                assert(Self::accepted(
                    asked,
                    *old(cx),
                    Poll::Pending,
                    f_after,
                    Poll::Pending,
                    *self,
                    *cx,
                ));
                Poll::Pending
            },
            Poll::Ready(Ok((stream, addr))) => {
                let ghost res: Poll<Result<(S, A), Error>> = Poll::Ready(Ok((stream, addr)));
                let r = Poll::Ready(Some(Ok(stream)));
                assert(Self::accepted(asked, *old(cx), res, f, r, *self, *cx));
                r
            },
            Poll::Ready(Err(e)) => {
                let ghost res: Poll<Result<(S, A), Error>> = Poll::Ready(Err(e));
                let r = Poll::Ready(Some(Err(e)));
                assert(Self::accepted(asked, *old(cx), res, f, r, *self, *cx));
                r
            },
        }
    }
}

/// What comes of connecting, once the socket can be written and has been asked for its error.
pub fn connected<T>(stream: T, error: Result<Option<Error>, Error>) -> (r: Result<T, Error>)
    ensures
        r == (match error {
            Ok(None) => Ok::<T, Error>(stream),
            Ok(Some(e)) => Err(e),
            Err(e) => Err(e),
        }),
{
    match error {
        Ok(None) => Ok(stream),
        Ok(Some(e)) => Err(e),
        Err(e) => Err(e),
    }
}

/// Whoever waits for a socket is asked again until they are done, and what they then say is told.
pub proof fn law_waits_on<F: Future<Output = Result<(), Error>>>(
    f: F,
    cx: Context,
    r: Poll<Result<(), Error>>,
    f_after: F,
    next: Side<F>,
    after: Context,
)
    requires
        Side::<F>::waited(f, cx, r, f_after, next, after),
    ensures
        f.polled(cx, r, f_after, after),
        r is Pending ==> next.waiting == Some(f_after),
        r is Ready ==> next.waiting is None,
{
}

/// Everybody who connects is told, and every error, one after the other, without an end.
pub proof fn law_incoming<S, A, F: Future<Output = Result<(S, A), Error>>>(
    f: F,
    cx: Context,
    res: Poll<Result<(S, A), Error>>,
    f_after: F,
    r: Poll<Option<Result<S, Error>>>,
    next: Incoming<F>,
    after: Context,
)
    requires
        Incoming::<F>::accepted(f, cx, res, f_after, r, next, after),
    ensures
        f.polled(cx, res, f_after, after),
        res is Pending ==> r is Pending && next.accept == Some(f_after),
        res matches Poll::Ready(Ok(conn)) ==> r == Poll::Ready(Some(Ok::<S, Error>(conn.0)))
            && next.accept is None,
        res matches Poll::Ready(Err(e)) ==> r == Poll::Ready(Some(Err::<S, Error>(e)))
            && next.accept is None,
{
}

/// Waiting optimistically asks the future once, and from then on has an answer at once.
pub proof fn law_optimistic<F: Future<Output = Result<(), Error>>>(
    first: Optimistic<F>,
    cx: Context,
    r: Poll<Result<(), Error>>,
    second: Optimistic<F>,
    between: Context,
    s: Poll<Result<(), Error>>,
    third: Optimistic<F>,
    after: Context,
)
    requires
        !first.polled,
        first.polled(cx, r, second, between),
        second.polled(between, s, third, after),
    ensures
        first.fut.polled(cx, r, second.fut, between),
        s == Poll::Ready(Ok::<(), Error>(())),
        after == between,
{
}

} // verus!
