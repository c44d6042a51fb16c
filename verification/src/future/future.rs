//! Futures and what can be made of them.

use vstd::prelude::*;
use crate::task::{Context, Poll, Wake};

verus! {

/// Polling may add to those who are woken up, and changes nothing else of the context.
pub open spec fn continues(before: Context, after: Context) -> bool {
    &&& after.waker == before.waker
    &&& before.woken@.is_prefix_of(after.woken@)
}

/// Something that is done at some time, and is polled until then.
pub trait Future: Sized {
    type Output;

    /// It may be polled.
    spec fn live(&self) -> bool;

    /// Polling the future in `cx` can give `r` and leave `next` and `after` behind.
    spec fn polled(self, cx: Context, r: Poll<Self::Output>, next: Self, after: Context) -> bool;

    /// Asks whether it is done. A future that is not can be asked again.
    fn poll(&mut self, cx: &mut Context) -> (r: Poll<Self::Output>)
        requires
            old(self).live(),
        ensures
            old(self).polled(*old(cx), r, *final(self), *final(cx)),
            continues(*old(cx), *final(cx)),
            r is Pending ==> final(self).live(),
    ;
}

/// A future that is done once somebody has put something into it.
#[must_use]
pub struct Outstanding<T> {
    pub data: Option<T>,
}

/// A future into which nothing has been put.
pub fn outstanding<T>() -> (r: Outstanding<T>)
    ensures
        r.data is None,
{
    Outstanding { data: None }
}

impl<T> Future for Outstanding<T> {
    type Output = ();

    open spec fn live(&self) -> bool {
        true
    }

    open spec fn polled(self, cx: Context, r: Poll<()>, next: Self, after: Context) -> bool {
        &&& r == (if self.data is Some {
            Poll::Ready(())
        } else {
            Poll::Pending
        })
        &&& next == self
        &&& after == cx
    }

    fn poll(&mut self, cx: &mut Context) -> (r: Poll<()>) {
        if self.data.is_some() {
            return Poll::Ready(());
        }
        Poll::Pending
    }
}

/// A future that is never done.
#[must_use]
pub struct Pending<T> {
    pub marker: core::marker::PhantomData<T>,
}

pub fn pending<T>() -> (r: Pending<T>)
    ensures
        r.live(),
{
    Pending { marker: core::marker::PhantomData }
}

impl<T> Future for Pending<T> {
    type Output = T;

    open spec fn live(&self) -> bool {
        true
    }

    open spec fn polled(self, cx: Context, r: Poll<T>, next: Self, after: Context) -> bool {
        &&& r == Poll::<T>::Pending
        &&& next == self
        &&& after == cx
    }

    fn poll(&mut self, cx: &mut Context) -> (r: Poll<T>) {
        Poll::Pending
    }
}

/// A future that is done when it is polled for the first time.
#[must_use]
#[derive(Debug)]
pub struct Ready<T>(pub Option<T>);

pub fn ready<T>(val: T) -> (r: Ready<T>)
    ensures
        r.0 == Some(val),
{
    Ready(Some(val))
}

impl<T> Future for Ready<T> {
    type Output = T;

    open spec fn live(&self) -> bool {
        self.0 is Some
    }

    open spec fn polled(self, cx: Context, r: Poll<T>, next: Self, after: Context) -> bool {
        &&& r == Poll::Ready(self.0->0)
        &&& next.0 is None
        &&& after == cx
    }

    fn poll(&mut self, cx: &mut Context) -> (r: Poll<T>) {
        Poll::Ready(self.0.take().unwrap())
    }
}

/// A future that lets the other tasks run once.
#[must_use]
#[derive(Debug)]
pub struct YieldNow(pub bool);

pub fn yield_now() -> (r: YieldNow)
    ensures
        !r.0,
{
    YieldNow(false)
}

impl Future for YieldNow {
    type Output = ();

    open spec fn live(&self) -> bool {
        true
    }

    open spec fn polled(self, cx: Context, r: Poll<()>, next: Self, after: Context) -> bool {
        &&& next.0
        &&& after.waker == cx.waker
        &&& if self.0 {
            r == Poll::Ready(()) && after == cx
        } else {
            r == Poll::<()>::Pending && after.woken@ == cx.woken@.push(Wake::Task(cx.waker))
        }
    }

    fn poll(&mut self, cx: &mut Context) -> (r: Poll<()>) {
        if !self.0 {
            self.0 = true;
            cx.wake_by_ref();
            Poll::Pending
        } else {
            Poll::Ready(())
        }
    }
}

/// A future that polls another one once, and is done whatever comes of that.
#[must_use]
pub struct PollOnce<F> {
    pub f: F,
}

pub fn poll_once<T, F>(f: F) -> (r: PollOnce<F>) where F: Future<Output = T>
    ensures
        r.f == f,
{
    PollOnce { f }
}

/// What is known of a result that may not be there yet.
pub open spec fn known<T>(r: Poll<T>) -> Option<T> {
    match r {
        Poll::Ready(t) => Some(t),
        Poll::Pending => None,
    }
}

/// What polling says of an output that may be there.
pub open spec fn awaited<T>(output: Option<T>) -> Poll<T> {
    match output {
        Some(t) => Poll::Ready(t),
        None => Poll::Pending,
    }
}

impl<T, F> Future for PollOnce<F> where F: Future<Output = T> {
    type Output = Option<T>;

    open spec fn live(&self) -> bool {
        self.f.live()
    }

    open spec fn polled(
        self,
        cx: Context,
        r: Poll<Option<T>>,
        next: Self,
        after: Context,
    ) -> bool {
        exists|inner: Poll<T>|
            {
                &&& #[trigger] self.f.polled(cx, inner, next.f, after)
                &&& r == Poll::Ready(known(inner))
            }
    }

    fn poll(&mut self, cx: &mut Context) -> (r: Poll<Option<T>>) {
        match self.f.poll(cx) {
            Poll::Ready(t) => {
                assert(old(self).f.polled(*old(cx), Poll::Ready(t), self.f, *cx));
                Poll::Ready(Some(t))
            },
            Poll::Pending => {
                assert(old(self).f.polled(*old(cx), Poll::Pending, self.f, *cx));
                Poll::Ready(None)
            },
        }
    }
}

/// One side of a pair of futures: it is polled unless its output is there already.
pub open spec fn half<F: Future>(
    future: F,
    output: Option<F::Output>,
    cx: Context,
    r: Poll<F::Output>,
    next: F,
    after: Context,
) -> bool {
    match output {
        Some(out) => r == Poll::Ready(out) && next == future && after == cx,
        None => future.polled(cx, r, next, after),
    }
}

/// A future that is done when both of two futures are.
#[must_use]
pub struct Zip<F1, F2> where F1: Future, F2: Future {
    pub future1: F1,
    pub output1: Option<F1::Output>,
    pub future2: F2,
    pub output2: Option<F2::Output>,
}

pub fn zip<F1, F2>(future1: F1, future2: F2) -> (r: Zip<F1, F2>) where F1: Future, F2: Future
    ensures
        r.future1 == future1,
        r.output1 is None,
        r.future2 == future2,
        r.output2 is None,
{
    Zip { future1, output1: None, future2, output2: None }
}

impl<F1, F2> Zip<F1, F2> where F1: Future, F2: Future {
    /// One poll, in which the first future gave `r1` and left `mid` to the second, which
    /// gave `r2`.
    pub open spec fn stepped(
        self,
        cx: Context,
        r1: Poll<F1::Output>,
        mid: Context,
        r2: Poll<F2::Output>,
        r: Poll<(F1::Output, F2::Output)>,
        next: Self,
        after: Context,
    ) -> bool {
        &&& half(self.future1, self.output1, cx, r1, next.future1, mid)
        &&& half(self.future2, self.output2, mid, r2, next.future2, after)
        &&& match (r1, r2) {
            (Poll::Ready(a), Poll::Ready(b)) => {
                &&& r == Poll::Ready((a, b))
                &&& next.output1 is None
                &&& next.output2 is None
            },
            _ => {
                &&& r is Pending
                &&& next.output1 == known(r1)
                &&& next.output2 == known(r2)
            },
        }
    }
}

impl<F1, F2> Future for Zip<F1, F2> where F1: Future, F2: Future {
    type Output = (F1::Output, F2::Output);

    open spec fn live(&self) -> bool {
        &&& self.output1 is None ==> self.future1.live()
        &&& self.output2 is None ==> self.future2.live()
    }

    open spec fn polled(
        self,
        cx: Context,
        r: Poll<(F1::Output, F2::Output)>,
        next: Self,
        after: Context,
    ) -> bool {
        exists|r1: Poll<F1::Output>, mid: Context, r2: Poll<F2::Output>| #[trigger]
            self.stepped(cx, r1, mid, r2, r, next, after)
    }

    fn poll(&mut self, cx: &mut Context) -> (r: Poll<(F1::Output, F2::Output)>) {
        if self.output1.is_none() {
            if let Poll::Ready(out) = self.future1.poll(cx) {
                self.output1 = Some(out);
            }
        }
        let ghost mid = *cx;
        let ghost r1 = awaited(self.output1);
        assert(half(old(self).future1, old(self).output1, *old(cx), r1, self.future1, mid));
        if self.output2.is_none() {
            if let Poll::Ready(out) = self.future2.poll(cx) {
                self.output2 = Some(out);
            }
        }
        let ghost r2 = awaited(self.output2);
        assert(half(old(self).future2, old(self).output2, mid, r2, self.future2, *cx));
        if self.output1.is_some() && self.output2.is_some() {
            let r = Poll::Ready((self.output1.take().unwrap(), self.output2.take().unwrap()));
            assert(old(self).stepped(*old(cx), r1, mid, r2, r, *self, *cx));
            r
        } else {
            assert(old(self).stepped(*old(cx), r1, mid, r2, Poll::Pending, *self, *cx));
            Poll::Pending
        }
    }
}

/// A future that is done when both of two futures are, or when one of them has failed.
#[must_use]
pub struct TryZip<F1, F2> where F1: Future, F2: Future {
    pub future1: F1,
    pub output1: Option<F1::Output>,
    pub future2: F2,
    pub output2: Option<F2::Output>,
}

pub fn try_zip<T1, T2, E, F1, F2>(future1: F1, future2: F2) -> (r: TryZip<F1, F2>) where
    F1: Future<Output = Result<T1, E>>,
    F2: Future<Output = Result<T2, E>>,

    ensures
        r.future1 == future1,
        r.output1 is None,
        r.future2 == future2,
        r.output2 is None,
{
    TryZip { future1, output1: None, future2, output2: None }
}

impl<T1, T2, E, F1, F2> TryZip<F1, F2> where
    F1: Future<Output = Result<T1, E>>,
    F2: Future<Output = Result<T2, E>>,
 {
    /// One poll, in which the first future gave `r1` and left `mid` to the second, which
    /// gave `r2`. If the first has failed, the second is left alone.
    pub open spec fn stepped(
        self,
        cx: Context,
        r1: Poll<Result<T1, E>>,
        mid: Context,
        r2: Poll<Result<T2, E>>,
        r: Poll<Result<(T1, T2), E>>,
        next: Self,
        after: Context,
    ) -> bool {
        &&& half(self.future1, self.output1, cx, r1, next.future1, mid)
        &&& if r1 matches Poll::Ready(Err(e)) {
            &&& r == Poll::Ready(Err::<(T1, T2), E>(r1->Ready_0->Err_0))
            &&& next.output1 == self.output1
            &&& next.future2 == self.future2
            &&& next.output2 == self.output2
            &&& after == mid
        } else {
            &&& half(self.future2, self.output2, mid, r2, next.future2, after)
            &&& match (r1, r2) {
                (_, Poll::Ready(Err(e))) => {
                    &&& r == Poll::Ready(Err::<(T1, T2), E>(e))
                    &&& next.output1 == known(r1)
                    &&& next.output2 == self.output2
                },
                (Poll::Ready(Ok(a)), Poll::Ready(Ok(b))) => {
                    &&& r == Poll::Ready(Ok::<(T1, T2), E>((a, b)))
                    &&& next.output1 is None
                    &&& next.output2 is None
                },
                _ => {
                    &&& r is Pending
                    &&& next.output1 == known(r1)
                    &&& next.output2 == known(r2)
                },
            }
        }
    }
}

impl<T1, T2, E, F1, F2> Future for TryZip<F1, F2> where
    F1: Future<Output = Result<T1, E>>,
    F2: Future<Output = Result<T2, E>>,
 {
    type Output = Result<(T1, T2), E>;

    open spec fn live(&self) -> bool {
        &&& match self.output1 {
            Some(out) => out is Ok,
            None => self.future1.live(),
        }
        &&& match self.output2 {
            Some(out) => out is Ok,
            None => self.future2.live(),
        }
    }

    open spec fn polled(
        self,
        cx: Context,
        r: Poll<Result<(T1, T2), E>>,
        next: Self,
        after: Context,
    ) -> bool {
        exists|r1: Poll<Result<T1, E>>, mid: Context, r2: Poll<Result<T2, E>>| #[trigger]
            self.stepped(cx, r1, mid, r2, r, next, after)
    }

    fn poll(&mut self, cx: &mut Context) -> (r: Poll<Result<(T1, T2), E>>) {
        if self.output1.is_none() {
            if let Poll::Ready(out) = self.future1.poll(cx) {
                match out {
                    Ok(t) => {
                        self.output1 = Some(Ok(t));
                    },
                    Err(err) => {
                        assert(old(self).stepped(
                            *old(cx),
                            Poll::Ready(Err(err)),
                            *cx,
                            Poll::Pending,
                            Poll::Ready(Err(err)),
                            *self,
                            *cx,
                        ));
                        return Poll::Ready(Err(err));
                    },
                }
            }
        }
        let ghost mid = *cx;
        let ghost r1: Poll<Result<T1, E>> = awaited(self.output1);
        assert(half(old(self).future1, old(self).output1, *old(cx), r1, self.future1, mid));
        if self.output2.is_none() {
            if let Poll::Ready(out) = self.future2.poll(cx) {
                match out {
                    Ok(t) => {
                        self.output2 = Some(Ok(t));
                    },
                    Err(err) => {
                        assert(old(self).stepped(
                            *old(cx),
                            r1,
                            mid,
                            Poll::Ready(Err(err)),
                            Poll::Ready(Err(err)),
                            *self,
                            *cx,
                        ));
                        return Poll::Ready(Err(err));
                    },
                }
            }
        }
        let ghost r2: Poll<Result<T2, E>> = awaited(self.output2);
        assert(half(old(self).future2, old(self).output2, mid, r2, self.future2, *cx));
        if self.output1.is_some() && self.output2.is_some() {
            match (self.output1.take().unwrap(), self.output2.take().unwrap()) {
                (Ok(t1), Ok(t2)) => {
                    let r = Poll::Ready(Ok((t1, t2)));
                    assert(old(self).stepped(*old(cx), r1, mid, r2, r, *self, *cx));
                    r
                },
                _ => vstd::pervasive::unreached(),
            }
        } else {
            assert(old(self).stepped(*old(cx), r1, mid, r2, Poll::Pending, *self, *cx));
            Poll::Pending
        }
    }
}

/// Polls one future and, if that is not done, another one.
pub open spec fn either<T, F1, F2>(
    future1: F1,
    future2: F2,
    cx: Context,
    r: Poll<T>,
    next1: F1,
    next2: F2,
    after: Context,
) -> bool where F1: Future<Output = T>, F2: Future<Output = T> {
    exists|r1: Poll<T>, mid: Context|
        {
            &&& #[trigger] future1.polled(cx, r1, next1, mid)
            &&& match r1 {
                Poll::Ready(t) => r == r1 && next2 == future2 && after == mid,
                Poll::Pending => future2.polled(mid, r, next2, after),
            }
        }
}

/// A future that is done when one of two futures is; the first goes before.
#[must_use]
pub struct Or<F1, F2> {
    pub future1: F1,
    pub future2: F2,
}

pub fn or<T, F1, F2>(future1: F1, future2: F2) -> (r: Or<F1, F2>) where
    F1: Future<Output = T>,
    F2: Future<Output = T>,

    ensures
        r == (Or { future1, future2 }),
{
    Or { future1, future2 }
}

impl<T, F1, F2> Future for Or<F1, F2> where F1: Future<Output = T>, F2: Future<Output = T> {
    type Output = T;

    open spec fn live(&self) -> bool {
        self.future1.live() && self.future2.live()
    }

    open spec fn polled(self, cx: Context, r: Poll<T>, next: Self, after: Context) -> bool {
        either(self.future1, self.future2, cx, r, next.future1, next.future2, after)
    }

    fn poll(&mut self, cx: &mut Context) -> (r: Poll<T>) {
        let r1 = self.future1.poll(cx);
        assert(old(self).future1.polled(*old(cx), r1, self.future1, *cx));
        if let Poll::Ready(t) = r1 {
            return Poll::Ready(t);
        }
        if let Poll::Ready(t) = self.future2.poll(cx) {
            return Poll::Ready(t);
        }
        Poll::Pending
    }
}

/// A future that is done when one of two futures is; a coin says which goes before.
#[must_use]
pub struct Race<F1, F2> {
    pub future1: F1,
    pub future2: F2,
}

pub fn race<T, F1, F2>(future1: F1, future2: F2) -> (r: Race<F1, F2>) where
    F1: Future<Output = T>,
    F2: Future<Output = T>,

    ensures
        r == (Race { future1, future2 }),
{
    Race { future1, future2 }
}

impl<F1, F2> Race<F1, F2> {
    pub open spec fn live<T>(&self) -> bool where
        F1: Future<Output = T>,
        F2: Future<Output = T>,
     {
        self.future1.live() && self.future2.live()
    }

    /// Asks whether one of the futures is done, the first one first if the coin says so.
    pub fn poll<T>(&mut self, cx: &mut Context, coin: bool) -> (r: Poll<T>) where
        F1: Future<Output = T>,
        F2: Future<Output = T>,

        requires
            old(self).live(),
        ensures
            if coin {
                either(
                    old(self).future1,
                    old(self).future2,
                    *old(cx),
                    r,
                    final(self).future1,
                    final(self).future2,
                    *final(cx),
                )
            } else {
                either(
                    old(self).future2,
                    old(self).future1,
                    *old(cx),
                    r,
                    final(self).future2,
                    final(self).future1,
                    *final(cx),
                )
            },
            continues(*old(cx), *final(cx)),
            r is Pending ==> final(self).live(),
    {
        if coin {
            let r1 = self.future1.poll(cx);
            assert(old(self).future1.polled(*old(cx), r1, self.future1, *cx));
            if let Poll::Ready(t) = r1 {
                return Poll::Ready(t);
            }
            if let Poll::Ready(t) = self.future2.poll(cx) {
                return Poll::Ready(t);
            }
        } else {
            let r2 = self.future2.poll(cx);
            assert(old(self).future2.polled(*old(cx), r2, self.future2, *cx));
            if let Poll::Ready(t) = r2 {
                return Poll::Ready(t);
            }
            if let Poll::Ready(t) = self.future1.poll(cx) {
                return Poll::Ready(t);
            }
        }
        Poll::Pending
    }
}

/// Makes futures out of futures.
pub trait FutureExt: Future {
    /// Whichever is done first, this one going before.
    fn or<F>(self, other: F) -> (r: Or<Self, F>) where F: Future<Output = Self::Output>
        ensures
            r.future1 == self,
            r.future2 == other,
    {
        Or { future1: self, future2: other }
    }

    /// Whichever is done first, a coin saying which goes before.
    fn race<F>(self, other: F) -> (r: Race<Self, F>) where F: Future<Output = Self::Output>
        ensures
            r.future1 == self,
            r.future2 == other,
    {
        Race { future1: self, future2: other }
    }
}

impl<F: Future> FutureExt for F {

}

/// A future that calls a function whenever it is polled. The function is handed the context
/// and gives it back.
#[must_use]
pub struct PollFn<F> {
    pub f: F,
}

pub fn poll_fn<T, F>(f: F) -> (r: PollFn<F>) where F: Fn(Context) -> (Poll<T>, Context)
    ensures
        r.f == f,
{
    PollFn { f }
}

impl<T, F> Future for PollFn<F> where F: Fn(Context) -> (Poll<T>, Context) {
    type Output = T;

    /// The function can be called in every context, and keeps to what polling may do to it.
    open spec fn live(&self) -> bool {
        &&& forall|cx: Context| call_requires(self.f, (cx,))
        &&& forall|cx: Context, out: (Poll<T>, Context)|
            call_ensures(self.f, (cx,), out) ==> continues(cx, out.1)
    }

    open spec fn polled(self, cx: Context, r: Poll<T>, next: Self, after: Context) -> bool {
        &&& next == self
        &&& call_ensures(self.f, (cx,), (r, after))
    }

    fn poll(&mut self, cx: &mut Context) -> (r: Poll<T>) {
        let mut given = Context::from_waker(cx.waker);
        std::mem::swap(&mut given, cx);
        let (r, back) = (self.f)(given);
        *cx = back;
        r
    }
}

/// Of two futures, the first to be done is the one that counts, whatever the second does.
pub proof fn law_first_goes_before<T, F1, F2>(
    or: Or<F1, F2>,
    cx: Context,
    t: T,
    r: Poll<T>,
    next: Or<F1, F2>,
    after: Context,
) where F1: Future<Output = T>, F2: Future<Output = T>
    requires
        or.polled(cx, r, next, after),
        forall|r1: Poll<T>, next1: F1, mid: Context|
            or.future1.polled(cx, r1, next1, mid) ==> r1 == Poll::Ready(t),
    ensures
        r == Poll::Ready(t),
        next.future2 == or.future2,
{
}

/// A pair of futures is done only when both are, with the output of each.
pub proof fn law_both_done<F1: Future, F2: Future>(
    zip: Zip<F1, F2>,
    cx: Context,
    r: Poll<(F1::Output, F2::Output)>,
    next: Zip<F1, F2>,
    after: Context,
)
    requires
        zip.polled(cx, r, next, after),
    ensures
        r matches Poll::Ready(pair) ==> exists|mid: Context|
            {
                &&& #[trigger] half(
                    zip.future1,
                    zip.output1,
                    cx,
                    Poll::Ready(pair.0),
                    next.future1,
                    mid,
                )
                &&& half(zip.future2, zip.output2, mid, Poll::Ready(pair.1), next.future2, after)
            },
        zip.output1 is Some && r is Pending ==> next.output1 == zip.output1,
        zip.output2 is Some && r is Pending ==> next.output2 == zip.output2,
{
    let (r1, mid, r2) = choose|r1: Poll<F1::Output>, mid: Context, r2: Poll<F2::Output>| #[trigger]
        zip.stepped(cx, r1, mid, r2, r, next, after);
    if let Poll::Ready(pair) = r {
        assert(half(zip.future1, zip.output1, cx, Poll::Ready(pair.0), next.future1, mid));
    }
}

/// A future whose output is there is not polled any more; one whose output is not is polled.
pub proof fn law_polled_until_done<F: Future>(
    future: F,
    output: Option<F::Output>,
    cx: Context,
    r: Poll<F::Output>,
    next: F,
    after: Context,
)
    requires
        half(future, output, cx, r, next, after),
    ensures
        output matches Some(out) ==> r == Poll::Ready(out) && next == future && after == cx,
        output is None ==> future.polled(cx, r, next, after),
{
}

/// A pair of futures waits exactly as long as one of them does, and keeps the output of the other.
pub proof fn law_pair_waits<F1: Future, F2: Future>(
    zip: Zip<F1, F2>,
    cx: Context,
    r1: Poll<F1::Output>,
    mid: Context,
    r2: Poll<F2::Output>,
    r: Poll<(F1::Output, F2::Output)>,
    next: Zip<F1, F2>,
    after: Context,
)
    requires
        zip.stepped(cx, r1, mid, r2, r, next, after),
    ensures
        r is Pending <==> r1 is Pending || r2 is Pending,
        r is Pending ==> {
            &&& r1 matches Poll::Ready(a) ==> next.output1 == Some(a)
            &&& r2 matches Poll::Ready(b) ==> next.output2 == Some(b)
            &&& r1 is Pending ==> next.output1 is None
            &&& r2 is Pending ==> next.output2 is None
        },
        r matches Poll::Ready(pair) ==> r1 == Poll::Ready(pair.0) && r2 == Poll::Ready(pair.1),
        zip.output1 is None ==> zip.future1.polled(cx, r1, next.future1, mid),
        zip.output2 is None ==> zip.future2.polled(mid, r2, next.future2, after),
        zip.output1 matches Some(a) ==> r1 == Poll::Ready(a) && next.future1 == zip.future1,
        zip.output2 matches Some(b) ==> r2 == Poll::Ready(b) && next.future2 == zip.future2,
{
}

/// A pair of futures that may fail fails as soon as one of them does, with its error, the second not
/// being asked if the first has failed; it succeeds once both have, with the outputs of both, and
/// until then keeps what is there.
pub proof fn law_fails_with_either<T1, T2, E, F1, F2>(
    zip: TryZip<F1, F2>,
    cx: Context,
    r1: Poll<Result<T1, E>>,
    mid: Context,
    r2: Poll<Result<T2, E>>,
    r: Poll<Result<(T1, T2), E>>,
    next: TryZip<F1, F2>,
    after: Context,
) where F1: Future<Output = Result<T1, E>>, F2: Future<Output = Result<T2, E>>
    requires
        zip.stepped(cx, r1, mid, r2, r, next, after),
    ensures
        zip.output1 is None ==> zip.future1.polled(cx, r1, next.future1, mid),
        zip.output1 matches Some(a) ==> r1 == Poll::Ready(a) && next.future1 == zip.future1,
        r1 matches Poll::Ready(Err(e)) ==> r == Poll::Ready(Err::<(T1, T2), E>(e)) && next.future2
            == zip.future2 && after == mid,
        !(r1 matches Poll::Ready(Err(_))) ==> {
            &&& zip.output2 is None ==> zip.future2.polled(mid, r2, next.future2, after)
            &&& zip.output2 matches Some(b) ==> r2 == Poll::Ready(b) && next.future2 == zip.future2
            &&& r2 matches Poll::Ready(Err(e)) ==> r == Poll::Ready(Err::<(T1, T2), E>(e))
            &&& !(r2 matches Poll::Ready(Err(_))) ==> (r is Pending <==> r1 is Pending || r2
                is Pending)
        },
        r is Pending ==> {
            &&& r1 matches Poll::Ready(a) ==> next.output1 == Some(a)
            &&& r2 matches Poll::Ready(b) ==> next.output2 == Some(b)
            &&& r1 is Pending ==> next.output1 is None
            &&& r2 is Pending ==> next.output2 is None
        },
        r matches Poll::Ready(Ok(pair)) ==> r1 == Poll::Ready(Ok::<T1, E>(pair.0)) && r2
            == Poll::Ready(Ok::<T2, E>(pair.1)),
        r matches Poll::Ready(Err(e)) ==> r1 == Poll::Ready(Err::<T1, E>(e)) || r2 == Poll::Ready(
            Err::<T2, E>(e),
        ),
{
}

/// Of two futures one is done if the first is, with its output and the second not being asked, or
/// else if the second is, with its output; they wait as long as both do.
pub proof fn law_one_of_two<T, F1, F2>(
    future1: F1,
    future2: F2,
    cx: Context,
    r: Poll<T>,
    next1: F1,
    next2: F2,
    after: Context,
) -> (r1: (Poll<T>, Context)) where F1: Future<Output = T>, F2: Future<Output = T>
    requires
        either(future1, future2, cx, r, next1, next2, after),
    ensures
        future1.polled(cx, r1.0, next1, r1.1),
        r1.0 is Ready ==> r == r1.0 && next2 == future2 && after == r1.1,
        r1.0 is Pending ==> future2.polled(r1.1, r, next2, after),
{
    choose|r1: Poll<T>, mid: Context|
        {
            &&& #[trigger] future1.polled(cx, r1, next1, mid)
            &&& match r1 {
                Poll::Ready(t) => r == r1 && next2 == future2 && after == mid,
                Poll::Pending => future2.polled(mid, r, next2, after),
            }
        }
}

/// A task that yields lets the others run once: it is not done at first but woken up at once, and
/// done when it is asked again.
pub proof fn law_yields_once(
    first: YieldNow,
    cx: Context,
    r: Poll<()>,
    second: YieldNow,
    between: Context,
    s: Poll<()>,
    third: YieldNow,
    after: Context,
)
    requires
        !first.0,
        first.polled(cx, r, second, between),
        second.polled(between, s, third, after),
    ensures
        r is Pending,
        between.woken@ == cx.woken@.push(Wake::Task(cx.waker)),
        s == Poll::Ready(()),
        after == between,
{
}

/// What is known of a result is the result, if it is there; and what was put into a future is there
/// when it is asked, and not before it was put in.
pub proof fn law_known<T>(r: Poll<T>, t: T)
    ensures
        known(Poll::Ready(t)) == Some(t),
        known(Poll::<T>::Pending) is None,
        awaited(known(r)) == r,
        awaited(Some(t)) == Poll::Ready(t),
        awaited(None::<T>) is Pending,
{
}

/// A future that polls another one once is done at once: with its output, if that is done, and else
/// with nothing.
pub proof fn law_polled_once<T, F>(
    once: PollOnce<F>,
    cx: Context,
    r: Poll<Option<T>>,
    next: PollOnce<F>,
    after: Context,
) where F: Future<Output = T>
    requires
        once.polled(cx, r, next, after),
    ensures
        r is Ready,
        r matches Poll::Ready(Some(t)) ==> once.f.polled(cx, Poll::Ready(t), next.f, after),
        r matches Poll::Ready(None) ==> once.f.polled(cx, Poll::Pending, next.f, after),
{
    let inner = choose|inner: Poll<T>|
        {
            &&& #[trigger] once.f.polled(cx, inner, next.f, after)
            &&& r == Poll::Ready(known(inner))
        };
    assert(once.f.polled(cx, inner, next.f, after));
}

/// The simplest futures: one is done once something was put into it, one is never done, and one is
/// done at once.
pub proof fn law_simple_futures<T>(
    outstanding: Outstanding<T>,
    pending: Pending<T>,
    ready: Ready<T>,
    cx: Context,
    r1: Poll<()>,
    r2: Poll<T>,
    r3: Poll<T>,
    next1: Outstanding<T>,
    next2: Pending<T>,
    next3: Ready<T>,
    after: Context,
)
    requires
        outstanding.polled(cx, r1, next1, after),
        pending.polled(cx, r2, next2, after),
        ready.polled(cx, r3, next3, after),
        ready.live(),
    ensures
        (r1 is Ready) == (outstanding.data is Some),
        next1 == outstanding,
        r2 is Pending,
        r3 == Poll::Ready(ready.0->0),
        !next3.live(),
        after == cx,
{
}

} // verus!
