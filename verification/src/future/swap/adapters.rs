//! Readers made of readers.

use vstd::prelude::*;
use crate::future::future::continues;
use crate::future::swap::read::tells_read;
use crate::future::swap::traits::{AsyncBufRead, AsyncRead, Io};
use crate::io::error::{Error, ErrorKind};
use crate::io::stream::smaller;
use crate::task::{Context, Poll};

verus! {

/// Reads at most so many bytes.
#[derive(Debug)]
pub struct Take<R> {
    pub inner: R,
    pub limit: u64,
}

impl<R> Take<R> {
    pub fn limit(&self) -> (r: u64)
        ensures
            r == self.limit,
    {
        self.limit
    }

    pub fn set_limit(&mut self, limit: u64)
        ensures
            *final(self) == (Take { inner: old(self).inner, limit }),
    {
        self.limit = limit;
    }

    pub fn get_ref(&self) -> (r: &R)
        ensures
            *r == self.inner,
    {
        &self.inner
    }

    pub fn get_mut(&mut self) -> (r: &mut R)
        ensures
            *r == old(self).inner,
            *final(self) == (Take { inner: *final(r), limit: old(self).limit }),
    {
        &mut self.inner
    }

    pub fn into_inner(self) -> (r: R)
        ensures
            r == self.inner,
    {
        self.inner
    }
}

/// The lesser of a length and a limit.
fn at_most(len: usize, limit: u64) -> (r: usize)
    ensures
        r == smaller(len as nat, limit as nat),
{
    if (len as u64) < limit {
        len
    } else {
        limit as usize
    }
}

impl<R: Io> Io for Take<R> {
    open spec fn wf(&self) -> bool {
        self.inner.wf()
    }
}

impl<R: AsyncRead> AsyncRead for Take<R> {
    open spec fn endless(&self) -> bool {
        false
    }

    open spec fn pace(&self) -> nat {
        if self.inner.endless() {
            self.limit as nat
        } else {
            self.inner.pace()
        }
    }

    /// The reader is handed no more of the buffer than it may fill.
    open spec fn reads(
        self,
        cx: Context,
        room: Seq<u8>,
        r: Poll<Result<usize, Error>>,
        next: Self,
        buf: Seq<u8>,
        after: Context,
    ) -> bool {
        if self.limit == 0 {
            &&& r == Poll::Ready(Ok::<usize, Error>(0))
            &&& next == self
            &&& buf == room
            &&& after == cx
        } else {
            let max = smaller(room.len(), self.limit as nat) as int;
            &&& self.inner.reads(cx, room.take(max), r, next.inner, buf.take(max), after)
            &&& buf.skip(max) == room.skip(max)
            &&& next.limit == (match r {
                Poll::Ready(Ok(n)) => self.limit - n,
                _ => self.limit as int,
            })
        }
    }

    fn poll_read(&mut self, cx: &mut Context, buf: &mut [u8]) -> (r: Poll<Result<usize, Error>>) {
        if self.limit == 0 {
            return Poll::Ready(Ok(0));
        }
        let max: usize = at_most(buf.len(), self.limit);
        let (front, rest) = buf.split_at_mut(max);
        assert(front@ =~= old(buf)@.take(max as int));
        assert(rest@ =~= old(buf)@.skip(max as int));
        let r = self.inner.poll_read(cx, front);
        let ghost filled = front@;
        assert(buf@.take(max as int) =~= filled);
        assert(buf@.skip(max as int) =~= old(buf)@.skip(max as int));
        match r {
            Poll::Ready(Ok(n)) => {
                self.limit = self.limit - n as u64;
                Poll::Ready(Ok(n))
            },
            Poll::Ready(Err(e)) => Poll::Ready(Err(e)),
            Poll::Pending => Poll::Pending,
        }
    }
}

/// Of what a buffer shows, no more than `limit` bytes.
pub open spec fn clipped(r: Poll<Result<Seq<u8>, Error>>, limit: u64) -> Poll<
    Result<Seq<u8>, Error>,
> {
    match r {
        Poll::Ready(Ok(bytes)) => Poll::Ready(
            Ok(bytes.take(smaller(bytes.len(), limit as nat) as int)),
        ),
        _ => r,
    }
}

impl<R: AsyncBufRead> Take<R> {
    /// The buffer of the reader showed `seen`, of which no more is shown than the limit allows.
    pub open spec fn filled_through(
        self,
        cx: Context,
        seen: Poll<Result<Seq<u8>, Error>>,
        r: Poll<Result<Seq<u8>, Error>>,
        next: Self,
        after: Context,
    ) -> bool {
        &&& self.inner.fills(cx, seen, next.inner, after)
        &&& r == clipped(seen, self.limit)
        &&& next.limit == self.limit
    }
}

impl<R: AsyncBufRead> AsyncBufRead for Take<R> {
    open spec fn held(&self) -> Seq<u8> {
        self.inner.held().take(smaller(self.inner.held().len(), self.limit as nat) as int)
    }

    open spec fn fills(
        self,
        cx: Context,
        r: Poll<Result<Seq<u8>, Error>>,
        next: Self,
        after: Context,
    ) -> bool {
        if self.limit == 0 {
            &&& r == Poll::Ready(Ok::<Seq<u8>, Error>(Seq::empty()))
            &&& next == self
            &&& after == cx
        } else {
            exists|seen: Poll<Result<Seq<u8>, Error>>| #[trigger]
                self.filled_through(cx, seen, r, next, after)
        }
    }

    open spec fn consumes(self, amount: nat, next: Self) -> bool {
        let n = smaller(amount, self.limit as nat);
        &&& self.inner.consumes(n, next.inner)
        &&& next.limit == self.limit - n
    }

    open spec fn tolerates(&self, amount: nat) -> bool {
        self.inner.tolerates(smaller(amount, self.limit as nat))
    }

    fn poll_fill_buf(&mut self, cx: &mut Context) -> (r: Poll<Result<&[u8], Error>>) {
        if self.limit == 0 {
            let none: &[u8] = &[];
            assert(none@ =~= Seq::<u8>::empty());
            assert(self.held() =~= Seq::<u8>::empty());
            return Poll::Ready(Ok(none));
        }
        let limit: u64 = self.limit;
        let ghost was = *self;
        assert forall|seen: Poll<Result<Seq<u8>, Error>>, inner: R, after: Context| #[trigger]
            was.inner.fills(*old(cx), seen, inner, after) implies was.filled_through(
            *old(cx),
            seen,
            clipped(seen, limit),
            Take { inner, limit },
            after,
        ) by {}
        match self.inner.poll_fill_buf(cx) {
            Poll::Ready(Ok(bytes)) => {
                let cap: usize = at_most(bytes.len(), limit);
                let front = vstd::slice::slice_subrange(bytes, 0, cap);
                assert(front@ =~= bytes@.take(cap as int));
                Poll::Ready(Ok(front))
            },
            Poll::Ready(Err(e)) => Poll::Ready(Err(e)),
            Poll::Pending => Poll::Pending,
        }
    }

    fn consume(&mut self, amount: usize) {
        let n: usize = at_most(amount, self.limit);
        self.limit = self.limit - n as u64;
        self.inner.consume(n);
    }
}

/// No more bytes are read than the limit says, and the limit counts down by those that are.
pub proof fn law_limit<R: AsyncRead>(
    take: Take<R>,
    cx: Context,
    room: Seq<u8>,
    n: usize,
    next: Take<R>,
    buf: Seq<u8>,
    after: Context,
)
    requires
        take.reads(cx, room, Poll::Ready(Ok(n)), next, buf, after),
    ensures
        n <= take.limit,
        next.limit == take.limit - n,
{
}

/// Reads one byte at a time.
#[derive(Debug)]
pub struct Bytes<R> {
    pub inner: R,
}

impl<R: AsyncRead> Bytes<R> {
    /// Reading into a buffer of one byte gave `raw`, and that is what comes of it. If it was
    /// interrupted, it says that there is nothing yet.
    pub open spec fn stepped(
        self,
        cx: Context,
        raw: Poll<Result<usize, Error>>,
        byte: u8,
        r: Poll<Option<Result<u8, Error>>>,
        next: Self,
        after: Context,
    ) -> bool {
        &&& self.inner.reads(cx, seq![0u8], raw, next.inner, seq![byte], after)
        &&& match raw {
            Poll::Pending => r is Pending,
            Poll::Ready(Ok(n)) => r == (if n == 0 {
                Poll::Ready(None)
            } else {
                Poll::Ready(Some(Ok::<u8, Error>(byte)))
            }),
            Poll::Ready(Err(e)) => r == (if e.kind == ErrorKind::Interrupted {
                Poll::Pending
            } else {
                Poll::Ready(Some(Err::<u8, Error>(e)))
            }),
        }
    }

    /// Asks for the next byte.
    pub fn poll_next(&mut self, cx: &mut Context) -> (r: Poll<Option<Result<u8, Error>>>)
        requires
            old(self).inner.wf(),
        ensures
            final(self).inner.wf(),
            exists|raw: Poll<Result<usize, Error>>, byte: u8| #[trigger]
                old(self).stepped(*old(cx), raw, byte, r, *final(self), *final(cx)),
            continues(*old(cx), *final(cx)),
    {
        let mut one: Vec<u8> = Vec::new();
        one.push(0);
        assert(one@ =~= seq![0u8]);
        let raw = self.inner.poll_read(cx, one.as_mut_slice());
        let byte: u8 = one[0];
        assert(one@ =~= seq![byte]);
        match raw {
            Poll::Ready(Ok(n)) => {
                let r = if n == 0 {
                    Poll::Ready(None)
                } else {
                    Poll::Ready(Some(Ok(byte)))
                };
                assert(old(self).stepped(*old(cx), Poll::Ready(Ok(n)), byte, r, *self, *cx));
                r
            },
            Poll::Ready(Err(e)) => {
                if e.kind() == ErrorKind::Interrupted {
                    assert(old(self).stepped(
                        *old(cx),
                        Poll::Ready(Err(e)),
                        byte,
                        Poll::Pending,
                        *self,
                        *cx,
                    ));
                    Poll::Pending
                } else {
                    let r = Poll::Ready(Some(Err(e)));
                    assert(old(self).stepped(*old(cx), Poll::Ready(Err(e)), byte, r, *self, *cx));
                    r
                }
            },
            Poll::Pending => {
                assert(old(self).stepped(
                    *old(cx),
                    Poll::Pending,
                    byte,
                    Poll::Pending,
                    *self,
                    *cx,
                ));
                Poll::Pending
            },
        }
    }
}

impl<R: Io> Io for Bytes<R> {
    open spec fn wf(&self) -> bool {
        self.inner.wf()
    }
}

impl<R: AsyncRead> AsyncRead for Bytes<R> {
    open spec fn endless(&self) -> bool {
        self.inner.endless()
    }

    open spec fn pace(&self) -> nat {
        self.inner.pace()
    }

    open spec fn reads(
        self,
        cx: Context,
        room: Seq<u8>,
        r: Poll<Result<usize, Error>>,
        next: Self,
        buf: Seq<u8>,
        after: Context,
    ) -> bool {
        self.inner.reads(cx, room, r, next.inner, buf, after)
    }

    fn poll_read(&mut self, cx: &mut Context, buf: &mut [u8]) -> (r: Poll<Result<usize, Error>>) {
        self.inner.poll_read(cx, buf)
    }
}

/// Reads one thing to its end and then another one.
pub struct Chain<R1, R2> {
    pub first: R1,
    pub second: R2,
    /// The first has come to its end.
    pub done_first: bool,
}

impl<R1, R2> Chain<R1, R2> {
    pub fn get_ref(&self) -> (r: (&R1, &R2))
        ensures
            *r.0 == self.first,
            *r.1 == self.second,
    {
        (&self.first, &self.second)
    }

    pub fn get_mut(&mut self) -> (r: (&mut R1, &mut R2))
        ensures
            *r.0 == old(self).first,
            *r.1 == old(self).second,
            *final(self) == (Chain {
                first: *final(r.0),
                second: *final(r.1),
                done_first: old(self).done_first,
            }),
    {
        (&mut self.first, &mut self.second)
    }

    pub fn into_inner(self) -> (r: (R1, R2))
        ensures
            r == (self.first, self.second),
    {
        (self.first, self.second)
    }
}

impl<R1: Io, R2: Io> Io for Chain<R1, R2> {
    open spec fn wf(&self) -> bool {
        self.first.wf() && self.second.wf()
    }
}

impl<R1: AsyncRead, R2: AsyncRead> Chain<R1, R2> {
    /// The first gave `raw` and left the buffer `mid`, and if it has come to its end the second
    /// is read.
    pub open spec fn read_on(
        self,
        cx: Context,
        room: Seq<u8>,
        raw: Poll<Result<usize, Error>>,
        mid: Seq<u8>,
        between: Context,
        r: Poll<Result<usize, Error>>,
        next: Self,
        buf: Seq<u8>,
        after: Context,
    ) -> bool {
        &&& self.first.reads(cx, room, raw, next.first, mid, between)
        &&& if raw == Poll::Ready(Ok::<usize, Error>(0)) && room.len() > 0 {
            &&& self.second.reads(between, mid, r, next.second, buf, after)
            &&& next.done_first
        } else {
            &&& r == raw
            &&& buf == mid
            &&& after == between
            &&& next.second == self.second
            &&& !next.done_first
        }
    }
}

impl<R1: AsyncRead, R2: AsyncRead> AsyncRead for Chain<R1, R2> {
    open spec fn endless(&self) -> bool {
        self.first.endless() || self.second.endless()
    }

    open spec fn pace(&self) -> nat {
        if self.done_first {
            self.second.pace()
        } else {
            self.first.pace() + self.second.pace()
        }
    }

    open spec fn reads(
        self,
        cx: Context,
        room: Seq<u8>,
        r: Poll<Result<usize, Error>>,
        next: Self,
        buf: Seq<u8>,
        after: Context,
    ) -> bool {
        if self.done_first {
            &&& self.second.reads(cx, room, r, next.second, buf, after)
            &&& next.first == self.first
            &&& next.done_first
        } else {
            exists|raw: Poll<Result<usize, Error>>, mid: Seq<u8>, between: Context| #[trigger]
                self.read_on(cx, room, raw, mid, between, r, next, buf, after)
        }
    }

    fn poll_read(&mut self, cx: &mut Context, buf: &mut [u8]) -> (r: Poll<Result<usize, Error>>) {
        if !self.done_first {
            let raw = self.first.poll_read(cx, buf);
            let at_end = match raw {
                Poll::Ready(Ok(n)) => n == 0 && buf.len() > 0,
                _ => false,
            };
            if !at_end {
                assert(old(self).read_on(
                    *old(cx),
                    old(buf)@,
                    raw,
                    buf@,
                    *cx,
                    raw,
                    *self,
                    buf@,
                    *cx,
                ));
                return raw;
            }
            let ghost mid = buf@;
            let ghost between = *cx;
            self.done_first = true;
            let r = self.second.poll_read(cx, buf);
            assert(old(self).read_on(
                *old(cx),
                old(buf)@,
                raw,
                mid,
                between,
                r,
                *self,
                buf@,
                *cx,
            ));
            return r;
        }
        self.second.poll_read(cx, buf)
    }
}

impl<R1: AsyncBufRead, R2: AsyncBufRead> Chain<R1, R2> {
    /// The buffer of the first showed `seen`, and if that was nothing the second is asked.
    pub open spec fn filled_on(
        self,
        cx: Context,
        seen: Poll<Result<Seq<u8>, Error>>,
        between: Context,
        r: Poll<Result<Seq<u8>, Error>>,
        next: Self,
        after: Context,
    ) -> bool {
        &&& self.first.fills(cx, seen, next.first, between)
        &&& if seen matches Poll::Ready(Ok(bytes)) && bytes.len() == 0 {
            &&& self.second.fills(between, r, next.second, after)
            &&& next.done_first
        } else {
            &&& r == seen
            &&& after == between
            &&& next.second == self.second
            &&& !next.done_first
        }
    }
}

impl<R1: AsyncBufRead, R2: AsyncBufRead> AsyncBufRead for Chain<R1, R2> {
    open spec fn held(&self) -> Seq<u8> {
        if self.done_first {
            self.second.held()
        } else {
            self.first.held()
        }
    }

    open spec fn fills(
        self,
        cx: Context,
        r: Poll<Result<Seq<u8>, Error>>,
        next: Self,
        after: Context,
    ) -> bool {
        if self.done_first {
            &&& self.second.fills(cx, r, next.second, after)
            &&& next.first == self.first
            &&& next.done_first
        } else {
            exists|seen: Poll<Result<Seq<u8>, Error>>, between: Context| #[trigger]
                self.filled_on(cx, seen, between, r, next, after)
        }
    }

    open spec fn consumes(self, amount: nat, next: Self) -> bool {
        &&& next.done_first == self.done_first
        &&& if self.done_first {
            self.second.consumes(amount, next.second) && next.first == self.first
        } else {
            self.first.consumes(amount, next.first) && next.second == self.second
        }
    }

    open spec fn tolerates(&self, amount: nat) -> bool {
        if self.done_first {
            self.second.tolerates(amount)
        } else {
            self.first.tolerates(amount)
        }
    }

    fn poll_fill_buf(&mut self, cx: &mut Context) -> (r: Poll<Result<&[u8], Error>>) {
        if !self.done_first {
            let ghost was = *self;
            assert forall|seen: Poll<Result<Seq<u8>, Error>>, first: R1, after: Context|
                #[trigger] was.first.fills(*old(cx), seen, first, after) && !(seen matches Poll::Ready(Ok(bytes))
                    && bytes.len() == 0) implies was.filled_on(
                *old(cx),
                seen,
                after,
                seen,
                Chain { first, second: was.second, done_first: false },
                after,
            ) by {}
            assert forall|
                seen: Poll<Result<Seq<u8>, Error>>,
                first: R1,
                between: Context,
                r: Poll<Result<Seq<u8>, Error>>,
                second: R2,
                after: Context,
            |
                #[trigger] was.first.fills(*old(cx), seen, first, between)
                    && #[trigger] was.second.fills(between, r, second, after) && (seen matches Poll::Ready(Ok(bytes))
                    && bytes.len() == 0) implies was.filled_on(
                *old(cx),
                seen,
                between,
                r,
                Chain { first, second, done_first: true },
                after,
            ) by {}
            match self.first.poll_fill_buf(cx) {
                Poll::Ready(Ok(bytes)) => {
                    if bytes.len() > 0 {
                        return Poll::Ready(Ok(bytes));
                    }
                },
                Poll::Ready(Err(e)) => return Poll::Ready(Err(e)),
                Poll::Pending => return Poll::Pending,
            }
            self.done_first = true;
        }
        self.second.poll_fill_buf(cx)
    }

    fn consume(&mut self, amount: usize) {
        if !self.done_first {
            self.first.consume(amount);
        } else {
            self.second.consume(amount);
        }
    }
}

/// The second is not touched before the first has come to its end.
pub proof fn law_one_after_the_other<R1: AsyncRead, R2: AsyncRead>(
    chain: Chain<R1, R2>,
    cx: Context,
    room: Seq<u8>,
    r: Poll<Result<usize, Error>>,
    next: Chain<R1, R2>,
    buf: Seq<u8>,
    after: Context,
)
    requires
        chain.reads(cx, room, r, next, buf, after),
    ensures
        chain.done_first ==> next.done_first && next.first == chain.first,
        !next.done_first ==> next.second == chain.second,
{
}

/// The bytes that are read are those of the reader, in front of what was in the buffer; at the limit
/// it is as if the reader had come to its end, and it is not asked.
pub proof fn law_front_of_reader<R: AsyncRead>(
    given: spec_fn(R) -> Seq<u8>,
    take: Take<R>,
    cx: Context,
    room: Seq<u8>,
    r: Poll<Result<usize, Error>>,
    next: Take<R>,
    buf: Seq<u8>,
    after: Context,
)
    requires
        tells_read(given),
        take.reads(cx, room, r, next, buf, after),
        buf.len() == room.len(),
        r matches Poll::Ready(Ok(n)) ==> n <= room.len() && n <= take.limit,
    ensures
        take.limit == 0 ==> r == Poll::Ready(Ok::<usize, Error>(0)) && next.inner == take.inner
            && buf == room,
        take.limit > 0 ==> exists|max: int|
            #![trigger room.take(max)]
            {
                &&& 0 <= max <= room.len() && max <= take.limit
                &&& max == room.len() || max == take.limit
                &&& take.inner.reads(cx, room.take(max), r, next.inner, buf.take(max), after)
                &&& buf.skip(max) == room.skip(max)
            },
        r matches Poll::Ready(Ok(n)) ==> given(next.inner) == given(take.inner)
            + buf.take(n as int) && next.limit == take.limit - n,
        !(r matches Poll::Ready(Ok(_))) ==> given(next.inner) == given(take.inner) && next.limit
            == take.limit,
{
    let max = smaller(room.len(), take.limit as nat) as int;
    if take.limit == 0 {
        assert(buf.take(0) =~= Seq::empty());
        assert(given(take.inner) + Seq::<u8>::empty() =~= given(take.inner));
    } else {
        assert(room.take(max).len() == max);
        assert(take.inner.reads(cx, room.take(max), r, next.inner, buf.take(max), after));
        if let Poll::Ready(Ok(n)) = r {
            assert(buf.take(max).take(n as int) =~= buf.take(n as int));
        }
    }
}

/// What is shown of a buffer is its front, no longer than the limit; the limit counts down by what is
/// consumed.
pub proof fn law_shown_up_to_limit<R: AsyncBufRead>(
    take: Take<R>,
    cx: Context,
    seen: Poll<Result<Seq<u8>, Error>>,
    r: Poll<Result<Seq<u8>, Error>>,
    mid: Take<R>,
    after: Context,
    amount: nat,
    next: Take<R>,
)
    requires
        take.filled_through(cx, seen, r, mid, after),
        mid.consumes(amount, next),
    ensures
        take.inner.fills(cx, seen, mid.inner, after),
        seen matches Poll::Ready(Ok(bytes)) ==> (r matches Poll::Ready(Ok(shown))
            && shown.is_prefix_of(bytes) && shown.len() <= take.limit && (shown.len() == bytes.len()
            || shown.len() == take.limit)),
        seen matches Poll::Ready(Err(e)) ==> r == Poll::Ready(Err::<Seq<u8>, Error>(e)),
        seen is Pending ==> r is Pending,
        mid.limit == take.limit,
        amount <= mid.limit ==> next.limit == mid.limit - amount && mid.inner.consumes(
            amount,
            next.inner,
        ),
        amount > mid.limit ==> next.limit == 0 && mid.inner.consumes(mid.limit as nat, next.inner),
{
}

/// Byte by byte the same comes out as otherwise: every byte that is read is told, and the end, and
/// every error, except that it is asked again where reading was interrupted.
pub proof fn law_byte_by_byte<R: AsyncRead>(
    given: spec_fn(R) -> Seq<u8>,
    bytes: Bytes<R>,
    cx: Context,
    raw: Poll<Result<usize, Error>>,
    byte: u8,
    r: Poll<Option<Result<u8, Error>>>,
    next: Bytes<R>,
    after: Context,
)
    requires
        tells_read(given),
        bytes.stepped(cx, raw, byte, r, next, after),
        raw matches Poll::Ready(Ok(n)) ==> n <= 1,
    ensures
        r matches Poll::Ready(Some(Ok(b))) ==> given(next.inner) == given(bytes.inner).push(b),
        !(r matches Poll::Ready(Some(Ok(_)))) ==> given(next.inner) == given(bytes.inner),
        r matches Poll::Ready(None) <==> raw == Poll::Ready(Ok::<usize, Error>(0)),
        r matches Poll::Ready(Some(Err(e))) ==> raw == Poll::Ready(Err::<usize, Error>(e)),
        raw matches Poll::Ready(Err(e)) ==> (r is Pending <==> e.kind is Interrupted),
        raw is Pending ==> r is Pending,
{
    assert(bytes.inner.reads(cx, seq![0u8], raw, next.inner, seq![byte], after));
    if let Poll::Ready(Ok(n)) = raw {
        if n == 0 {
            assert(seq![byte].take(0) =~= Seq::empty());
            assert(given(bytes.inner) + Seq::<u8>::empty() =~= given(bytes.inner));
        } else {
            assert(seq![byte].take(1) =~= seq![byte]);
            assert(given(bytes.inner) + seq![byte] =~= given(bytes.inner).push(byte));
        }
    }
}

/// What is read of two readers in a row is what the first gives, followed by what the second does:
/// the second is read from the moment on when the first has come to its end, and what the first says
/// before is handed on.
pub proof fn law_in_a_row<R1: AsyncRead, R2: AsyncRead>(
    given1: spec_fn(R1) -> Seq<u8>,
    given2: spec_fn(R2) -> Seq<u8>,
    chain: Chain<R1, R2>,
    cx: Context,
    room: Seq<u8>,
    r: Poll<Result<usize, Error>>,
    next: Chain<R1, R2>,
    buf: Seq<u8>,
    after: Context,
)
    requires
        tells_read(given1),
        tells_read(given2),
        chain.reads(cx, room, r, next, buf, after),
    ensures
        !next.done_first ==> chain.first.reads(cx, room, r, next.first, buf, after) && !(r
            == Poll::Ready(Ok::<usize, Error>(0)) && room.len() > 0),
        !chain.done_first && next.done_first ==> given1(next.first) == given1(chain.first)
            && room.len() > 0,
        r matches Poll::Ready(Ok(n)) ==> if next.done_first {
            given2(next.second) == given2(chain.second) + buf.take(n as int)
        } else {
            given1(next.first) == given1(chain.first) + buf.take(n as int)
        },
        !(r matches Poll::Ready(Ok(_))) ==> given1(next.first) == given1(chain.first) && given2(
            next.second,
        ) == given2(chain.second),
{
    if chain.done_first {
        assert(chain.second.reads(cx, room, r, next.second, buf, after));
    } else {
        let (raw, mid, between) = choose|
            raw: Poll<Result<usize, Error>>,
            mid: Seq<u8>,
            between: Context,
        | #[trigger]
            chain.read_on(cx, room, raw, mid, between, r, next, buf, after);
        assert(chain.first.reads(cx, room, raw, next.first, mid, between));
        if next.done_first {
            assert(chain.second.reads(between, mid, r, next.second, buf, after));
            assert(mid.take(0) =~= Seq::empty());
            assert(given1(chain.first) + Seq::<u8>::empty() =~= given1(chain.first));
        }
    }
}

/// The same holds of what two buffers in a row show; and what is consumed is consumed of the one that
/// was shown.
pub proof fn law_shown_in_a_row<R1: AsyncBufRead, R2: AsyncBufRead>(
    chain: Chain<R1, R2>,
    cx: Context,
    r: Poll<Result<Seq<u8>, Error>>,
    mid: Chain<R1, R2>,
    after: Context,
    amount: nat,
    next: Chain<R1, R2>,
)
    requires
        chain.fills(cx, r, mid, after),
        mid.consumes(amount, next),
    ensures
        chain.done_first ==> mid.done_first && mid.first == chain.first && chain.second.fills(
            cx,
            r,
            mid.second,
            after,
        ),
        !mid.done_first ==> mid.second == chain.second && chain.first.fills(
            cx,
            r,
            mid.first,
            after,
        ) && !(r matches Poll::Ready(Ok(bytes)) && bytes.len() == 0),
        mid.done_first ==> next.done_first && mid.second.consumes(amount, next.second) && next.first
            == mid.first,
        !mid.done_first ==> !next.done_first && mid.first.consumes(amount, next.first)
            && next.second == mid.second,
{
}

} // verus!
