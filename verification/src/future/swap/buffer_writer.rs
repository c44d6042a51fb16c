//! Writing through a buffer.

use vstd::prelude::*;
use crate::future::future::continues;
use crate::future::swap::buffer_reader::DEFAULT_BUFSZ;
use crate::future::swap::traits::{interrupted, AsyncSeek, AsyncWrite, Io};
use crate::io::error::{Error, ErrorKind};
use crate::io::stream::SeekFrom;
use crate::task::{Context, Poll};

verus! {

/// Writes through a buffer.
pub struct BufferWriter<W> {
    pub inner: W,
    pub buf: Vec<u8>,
    /// How many bytes of the buffer were written already.
    pub written: usize,
    /// How many bytes the buffer holds at most.
    pub capacity: usize,
}

impl<W: Io> Io for BufferWriter<W> {
    open spec fn wf(&self) -> bool {
        &&& self.inner.wf()
        &&& self.written <= self.buf@.len() <= self.capacity <= isize::MAX
    }
}

/// Writing the bytes `buf`, of which `done` were written, goes on with `to` and `cx2` after one
/// write, and then `more` were written.
pub open spec fn pushed<W: AsyncWrite>(
    buf: Seq<u8>,
    from: W,
    cx: Context,
    done: nat,
    to: W,
    cx2: Context,
    more: nat,
) -> bool {
    exists|r: Poll<Result<usize, Error>>|
        {
            &&& #[trigger] from.writes(cx, buf.skip(done as int), r, to, cx2)
            &&& (interrupted(r) && more == done) || (r matches Poll::Ready(Ok(n)) && n > 0 && more
                == done + n)
            &&& more <= buf.len()
        }
}

/// Writing the bytes `buf`, of which `done` were written, is with `to` and `cx2` after `n`
/// writes, and then `more` were written.
pub open spec fn pushing<W: AsyncWrite>(
    buf: Seq<u8>,
    from: W,
    cx: Context,
    done: nat,
    n: nat,
    to: W,
    cx2: Context,
    more: nat,
) -> bool
    decreases n,
{
    if n == 0 {
        to == from && cx2 == cx && more == done
    } else {
        exists|mid: W, between: Context, some: nat|
            {
                &&& pushing(buf, from, cx, done, (n - 1) as nat, mid, between, some)
                &&& #[trigger] pushed(buf, mid, between, some, to, cx2, more)
            }
    }
}

impl<W: AsyncWrite> BufferWriter<W> {
    /// Writes through a buffer of the usual size.
    pub fn new(inner: W) -> (r: BufferWriter<W>)
        requires
            inner.wf(),
        ensures
            r.wf(),
            r.inner == inner,
            r.buf@ == Seq::<u8>::empty(),
            r.written == 0,
            r.capacity == DEFAULT_BUFSZ,
    {
        BufferWriter::with_capacity(DEFAULT_BUFSZ, inner)
    }

    pub fn with_capacity(capacity: usize, inner: W) -> (r: BufferWriter<W>)
        requires
            inner.wf(),
            capacity <= isize::MAX,
        ensures
            r.wf(),
            r.inner == inner,
            r.buf@ == Seq::<u8>::empty(),
            r.written == 0,
            r.capacity == capacity,
    {
        BufferWriter { inner, buf: Vec::with_capacity(capacity), written: 0, capacity }
    }

    pub fn get_ref(&self) -> (r: &W)
        ensures
            *r == self.inner,
    {
        &self.inner
    }

    pub fn get_mut(&mut self) -> (r: &mut W)
        ensures
            *r == old(self).inner,
            *final(self) == (BufferWriter { inner: *final(r), ..*old(self) }),
    {
        &mut self.inner
    }

    /// What was written through the buffer. Bytes in the buffer are lost.
    pub fn into_inner(self) -> (r: W)
        ensures
            r == self.inner,
    {
        self.inner
    }

    pub fn buffer(&self) -> (r: &[u8])
        ensures
            r@ == self.buf@,
    {
        self.buf.as_slice()
    }

    /// After `n` writes, with `mid` and `between`, when `done` bytes were written, emptying the
    /// buffer comes to an end and gives `r`.
    pub open spec fn emptied(
        self,
        cx: Context,
        n: nat,
        mid: W,
        between: Context,
        done: nat,
        r: Poll<Result<(), Error>>,
        next: Self,
        after: Context,
    ) -> bool {
        &&& pushing(self.buf@, self.inner, cx, self.written as nat, n, mid, between, done)
        &&& done <= self.buf@.len()
        &&& next.capacity == self.capacity
        &&& if done == self.buf@.len() {
            // All of it is written.
            &&& r == Poll::Ready(Ok::<(), Error>(()))
            &&& next.inner == mid
            &&& after == between
            &&& next.buf@ == Seq::<u8>::empty()
            &&& next.written == 0
        } else {
            let rest = self.buf@.skip(done as int);
            match r {
                Poll::Pending => {
                    &&& mid.writes(between, rest, Poll::Pending, next.inner, after)
                    &&& next.buf@ == self.buf@
                    &&& next.written == done
                },
                Poll::Ready(Err(e)) => {
                    &&& ({
                        // Nothing more is taken, or the writer has failed.
                        ||| mid.writes(between, rest, Poll::Ready(Ok(0)), next.inner, after)
                            && e.says(ErrorKind::WriteZero, "Failed to write buffered data"@)
                        ||| mid.writes(between, rest, Poll::Ready(Err(e)), next.inner, after)
                            && e.kind != ErrorKind::Interrupted
                    })
                    &&& next.buf@ == rest
                    &&& next.written == 0
                },
                Poll::Ready(Ok(_)) => false,
            }
        }
    }

    /// Emptying the buffer in `cx` can give `r` and leave `next` and `after` behind.
    pub open spec fn empties(
        self,
        cx: Context,
        r: Poll<Result<(), Error>>,
        next: Self,
        after: Context,
    ) -> bool {
        exists|n: nat, mid: W, between: Context, done: nat| #[trigger]
            self.emptied(cx, n, mid, between, done, r, next, after)
    }

    /// Writes what is in the buffer.
    fn poll_flush_buf(&mut self, cx: &mut Context) -> (r: Poll<Result<(), Error>>)
        requires
            old(self).wf(),
        ensures
            final(self).wf(),
            old(self).empties(*old(cx), r, *final(self), *final(cx)),
            continues(*old(cx), *final(cx)),
            final(self).inner.stamina() == old(self).inner.stamina(),
            !interrupted(r),
            old(self).buf@.len() == 0 ==> final(self).inner == old(self).inner,
            r matches Poll::Ready(Ok(_)) ==> final(self).buf@.len() == 0,
    {
        let len: usize = self.buf.len();
        let ghost mut n: nat = 0;
        while self.written < len
            invariant
                len == self.buf@.len(),
                self.wf(),
                self.buf == old(self).buf,
                self.capacity == old(self).capacity,
                pushing(
                    self.buf@,
                    old(self).inner,
                    *old(cx),
                    old(self).written as nat,
                    n,
                    self.inner,
                    *cx,
                    self.written as nat,
                ),
                continues(*old(cx), *cx),
                self.inner.stamina() == old(self).inner.stamina(),
                len == 0 ==> self.inner == old(self).inner,
            decreases len - self.written, self.inner.patience(),
        {
            let ghost mid = self.inner;
            let ghost between = *cx;
            let ghost done = self.written as nat;
            let rest = vstd::slice::slice_subrange(self.buf.as_slice(), self.written, len);
            assert(rest@ =~= self.buf@.skip(done as int));
            match self.inner.poll_write(cx, rest) {
                Poll::Ready(Ok(k)) => {
                    assert(mid.writes(
                        between,
                        self.buf@.skip(done as int),
                        Poll::Ready(Ok(k)),
                        self.inner,
                        *cx,
                    ));
                    if k == 0 {
                        let e = Error::new(ErrorKind::WriteZero, "Failed to write buffered data");
                        self.drop_front();
                        let r = Poll::Ready(Err(e));
                        assert(old(self).emptied(*old(cx), n, mid, between, done, r, *self, *cx));
                        return r;
                    }
                    self.written = self.written + k;
                    proof {
                        assert(pushed(
                            self.buf@,
                            mid,
                            between,
                            done,
                            self.inner,
                            *cx,
                            self.written as nat,
                        ));
                        n = n + 1;
                    }
                },
                Poll::Ready(Err(e)) => {
                    assert(mid.writes(
                        between,
                        self.buf@.skip(done as int),
                        Poll::Ready(Err(e)),
                        self.inner,
                        *cx,
                    ));
                    if e.kind() != ErrorKind::Interrupted {
                        self.drop_front();
                        let r = Poll::Ready(Err(e));
                        assert(old(self).emptied(*old(cx), n, mid, between, done, r, *self, *cx));
                        return r;
                    }
                    proof {
                        assert(pushed(self.buf@, mid, between, done, self.inner, *cx, done));
                        n = n + 1;
                    }
                },
                Poll::Pending => {
                    assert(old(self).emptied(
                        *old(cx),
                        n,
                        mid,
                        between,
                        done,
                        Poll::Pending,
                        *self,
                        *cx,
                    ));
                    return Poll::Pending;
                },
            }
        }
        let ghost done = self.written as nat;
        self.drop_front();
        let r = Poll::Ready(Ok(()));
        assert(self.buf@ =~= Seq::<u8>::empty());
        assert(old(self).emptied(*old(cx), n, self.inner, *cx, done, r, *self, *cx));
        r
    }

    /// Drops the bytes that were written.
    fn drop_front(&mut self)
        requires
            old(self).written <= old(self).buf@.len(),
        ensures
            final(self).buf@ == old(self).buf@.skip(old(self).written as int),
            final(self).written == 0,
            final(self).inner == old(self).inner,
            final(self).capacity == old(self).capacity,
    {
        let rest = self.buf.split_off(self.written);
        assert(rest@ =~= old(self).buf@.skip(old(self).written as int));
        self.buf = rest;
        self.written = 0;
    }

    /// Emptying the buffer gave `first`, and after that `mid` was written to.
    pub open spec fn emptied_then_wrote(
        self,
        cx: Context,
        buf: Seq<u8>,
        first: Poll<Result<(), Error>>,
        mid: Self,
        between: Context,
        r: Poll<Result<usize, Error>>,
        next: Self,
        after: Context,
    ) -> bool {
        &&& if self.buf@.len() + buf.len() > self.capacity {
            self.empties(cx, first, mid, between)
        } else {
            first == Poll::Ready(Ok::<(), Error>(())) && mid == self && between == cx
        }
        &&& match first {
            Poll::Ready(Ok(_)) => if buf.len() >= self.capacity {
                // There is no room for it in the buffer.
                &&& mid.inner.writes(between, buf, r, next.inner, after)
                &&& next.buf == mid.buf
                &&& next.written == mid.written
                &&& next.capacity == mid.capacity
            } else {
                &&& r == Poll::Ready(Ok::<usize, Error>(buf.len() as usize))
                &&& next.inner == mid.inner
                &&& next.buf@ == mid.buf@ + buf
                &&& next.written == mid.written
                &&& next.capacity == mid.capacity
                &&& after == between
            },
            Poll::Ready(Err(e)) => {
                &&& r == Poll::Ready(Err::<usize, Error>(e))
                &&& next == mid
                &&& after == between
            },
            Poll::Pending => r is Pending && next == mid && after == between,
        }
    }

    /// Emptying the buffer gave `first` and left `mid`, and if that went well the writer is
    /// flushed, or closed.
    pub open spec fn emptied_then_ended(
        self,
        cx: Context,
        close: bool,
        first: Poll<Result<(), Error>>,
        mid: Self,
        between: Context,
        r: Poll<Result<(), Error>>,
        next: Self,
        after: Context,
    ) -> bool {
        &&& self.empties(cx, first, mid, between)
        &&& if first matches Poll::Ready(Ok(_)) {
            &&& if close {
                mid.inner.closes(between, r, next.inner, after)
            } else {
                mid.inner.flushes(between, r, next.inner, after)
            }
            &&& next.buf == mid.buf
            &&& next.written == mid.written
            &&& next.capacity == mid.capacity
        } else {
            r == first && next == mid && after == between
        }
    }
}

impl<W: AsyncWrite> AsyncWrite for BufferWriter<W> {
    open spec fn stamina(&self) -> nat {
        self.inner.stamina() + 1
    }

    open spec fn patience(&self) -> nat {
        if self.buf@.len() > 0 {
            self.inner.stamina() + 1
        } else {
            self.inner.patience()
        }
    }

    proof fn lemma_patience(&self) {
        self.inner.lemma_patience();
    }

    open spec fn writes(
        self,
        cx: Context,
        buf: Seq<u8>,
        r: Poll<Result<usize, Error>>,
        next: Self,
        after: Context,
    ) -> bool {
        exists|first: Poll<Result<(), Error>>, mid: Self, between: Context| #[trigger]
            self.emptied_then_wrote(cx, buf, first, mid, between, r, next, after)
    }

    open spec fn flushes(
        self,
        cx: Context,
        r: Poll<Result<(), Error>>,
        next: Self,
        after: Context,
    ) -> bool {
        exists|first: Poll<Result<(), Error>>, mid: Self, between: Context| #[trigger]
            self.emptied_then_ended(cx, false, first, mid, between, r, next, after)
    }

    open spec fn closes(
        self,
        cx: Context,
        r: Poll<Result<(), Error>>,
        next: Self,
        after: Context,
    ) -> bool {
        exists|first: Poll<Result<(), Error>>, mid: Self, between: Context| #[trigger]
            self.emptied_then_ended(cx, true, first, mid, between, r, next, after)
    }

    fn poll_write(&mut self, cx: &mut Context, buf: &[u8]) -> (r: Poll<Result<usize, Error>>) {
        if buf.len() > self.capacity - self.buf.len() {
            match self.poll_flush_buf(cx) {
                Poll::Pending => {
                    assert(old(self).emptied_then_wrote(
                        *old(cx),
                        buf@,
                        Poll::Pending,
                        *self,
                        *cx,
                        Poll::Pending,
                        *self,
                        *cx,
                    ));
                    return Poll::Pending;
                },
                Poll::Ready(Err(e)) => {
                    let r = Poll::Ready(Err(e));
                    assert(old(self).emptied_then_wrote(
                        *old(cx),
                        buf@,
                        Poll::Ready(Err(e)),
                        *self,
                        *cx,
                        r,
                        *self,
                        *cx,
                    ));
                    return r;
                },
                Poll::Ready(Ok(_)) => {},
            }
        }
        let ghost mid = *self;
        let ghost between = *cx;
        if buf.len() >= self.capacity {
            proof {
                self.inner.lemma_patience();
            }
            let r = self.inner.poll_write(cx, buf);
            assert(old(self).emptied_then_wrote(
                *old(cx),
                buf@,
                Poll::Ready(Ok(())),
                mid,
                between,
                r,
                *self,
                *cx,
            ));
            r
        } else {
            self.buf.extend_from_slice(buf);
            let r = Poll::Ready(Ok(buf.len()));
            assert(self.buf@ =~= mid.buf@ + buf@);
            assert(old(self).emptied_then_wrote(
                *old(cx),
                buf@,
                Poll::Ready(Ok(())),
                mid,
                between,
                r,
                *self,
                *cx,
            ));
            r
        }
    }

    fn poll_flush(&mut self, cx: &mut Context) -> (r: Poll<Result<(), Error>>) {
        let first = self.poll_flush_buf(cx);
        let ghost mid = *self;
        let ghost between = *cx;
        match first {
            Poll::Ready(Ok(done)) => {
                let r = self.inner.poll_flush(cx);
                assert(old(self).emptied_then_ended(
                    *old(cx),
                    false,
                    Poll::Ready(Ok(done)),
                    mid,
                    between,
                    r,
                    *self,
                    *cx,
                ));
                r
            },
            _ => {
                assert(old(self).emptied_then_ended(
                    *old(cx),
                    false,
                    first,
                    mid,
                    between,
                    first,
                    *self,
                    *cx,
                ));
                first
            },
        }
    }

    fn poll_close(&mut self, cx: &mut Context) -> (r: Poll<Result<(), Error>>) {
        let first = self.poll_flush_buf(cx);
        let ghost mid = *self;
        let ghost between = *cx;
        match first {
            Poll::Ready(Ok(done)) => {
                let r = self.inner.poll_close(cx);
                assert(old(self).emptied_then_ended(
                    *old(cx),
                    true,
                    Poll::Ready(Ok(done)),
                    mid,
                    between,
                    r,
                    *self,
                    *cx,
                ));
                r
            },
            _ => {
                assert(old(self).emptied_then_ended(
                    *old(cx),
                    true,
                    first,
                    mid,
                    between,
                    first,
                    *self,
                    *cx,
                ));
                first
            },
        }
    }
}

impl<W: AsyncWrite + AsyncSeek> BufferWriter<W> {
    /// Emptying the buffer gave `first` and left `mid`, and if that went well the writer is
    /// told to go to `pos`.
    pub open spec fn emptied_then_sought(
        self,
        cx: Context,
        pos: SeekFrom,
        first: Poll<Result<(), Error>>,
        mid: Self,
        between: Context,
        r: Poll<Result<u64, Error>>,
        next: Self,
        after: Context,
    ) -> bool {
        &&& self.empties(cx, first, mid, between)
        &&& match first {
            Poll::Ready(Ok(_)) => {
                &&& mid.inner.seeks(between, pos, r, next.inner, after)
                &&& next.buf == mid.buf
                &&& next.written == mid.written
                &&& next.capacity == mid.capacity
            },
            Poll::Ready(Err(e)) => {
                &&& r == Poll::Ready(Err::<u64, Error>(e))
                &&& next == mid
                &&& after == between
            },
            Poll::Pending => r is Pending && next == mid && after == between,
        }
    }
}

impl<W: AsyncWrite + AsyncSeek> AsyncSeek for BufferWriter<W> {
    open spec fn seeks(
        self,
        cx: Context,
        pos: SeekFrom,
        r: Poll<Result<u64, Error>>,
        next: Self,
        after: Context,
    ) -> bool {
        exists|first: Poll<Result<(), Error>>, mid: Self, between: Context| #[trigger]
            self.emptied_then_sought(cx, pos, first, mid, between, r, next, after)
    }

    fn poll_seek(&mut self, cx: &mut Context, pos: SeekFrom) -> (r: Poll<Result<u64, Error>>) {
        let first = self.poll_flush_buf(cx);
        let ghost mid = *self;
        let ghost between = *cx;
        match first {
            Poll::Ready(Ok(done)) => {
                let r = self.inner.poll_seek(cx, pos);
                assert(old(self).emptied_then_sought(
                    *old(cx),
                    pos,
                    Poll::Ready(Ok(done)),
                    mid,
                    between,
                    r,
                    *self,
                    *cx,
                ));
                r
            },
            Poll::Ready(Err(e)) => {
                let r = Poll::Ready(Err(e));
                assert(old(self).emptied_then_sought(
                    *old(cx),
                    pos,
                    Poll::Ready(Err(e)),
                    mid,
                    between,
                    r,
                    *self,
                    *cx,
                ));
                r
            },
            Poll::Pending => {
                assert(old(self).emptied_then_sought(
                    *old(cx),
                    pos,
                    Poll::Pending,
                    mid,
                    between,
                    Poll::Pending,
                    *self,
                    *cx,
                ));
                Poll::Pending
            },
        }
    }
}

/// `taken` tells for a writer what it took so far.
pub open spec fn tells_taken<W: AsyncWrite>(taken: spec_fn(W) -> Seq<u8>) -> bool {
    forall|
        a: W,
        cx: Context,
        buf: Seq<u8>,
        r: Poll<Result<usize, Error>>,
        b: W,
        after: Context,
    | #[trigger]
        a.writes(cx, buf, r, b, after) ==> (match r {
            Poll::Ready(Ok(n)) => n <= buf.len() && taken(b) == taken(a) + buf.take(n as int),
            _ => taken(b) == taken(a),
        })
}

proof fn lemma_pushing<W: AsyncWrite>(
    taken: spec_fn(W) -> Seq<u8>,
    buf: Seq<u8>,
    from: W,
    cx: Context,
    done: nat,
    n: nat,
    to: W,
    cx2: Context,
    more: nat,
)
    requires
        tells_taken(taken),
        done <= buf.len(),
        pushing(buf, from, cx, done, n, to, cx2, more),
    ensures
        more <= buf.len(),
        taken(to) + buf.skip(more as int) == taken(from) + buf.skip(done as int),
    decreases n,
{
    if n > 0 {
        let (mid, between, some) = choose|mid: W, between: Context, some: nat|
            {
                &&& pushing(buf, from, cx, done, (n - 1) as nat, mid, between, some)
                &&& #[trigger] pushed(buf, mid, between, some, to, cx2, more)
            };
        lemma_pushing(taken, buf, from, cx, done, (n - 1) as nat, mid, between, some);
        if more > some {
            assert(taken(to) + buf.skip(more as int) =~= taken(mid) + buf.skip(some as int));
        }
    }
}

proof fn lemma_empties<W: AsyncWrite>(
    taken: spec_fn(W) -> Seq<u8>,
    writer: BufferWriter<W>,
    cx: Context,
    r: Poll<Result<(), Error>>,
    next: BufferWriter<W>,
    after: Context,
)
    requires
        tells_taken(taken),
        writer.wf(),
        writer.empties(cx, r, next, after),
    ensures
        taken(next.inner) + next.buf@.skip(next.written as int) == taken(writer.inner)
            + writer.buf@.skip(writer.written as int),
        r matches Poll::Ready(Ok(_)) ==> next.buf@.len() == 0 && next.written == 0,
        next.written <= next.buf@.len(),
{
    let (n, mid, between, done) = choose|n: nat, mid: W, between: Context, done: nat| #[trigger]
        writer.emptied(cx, n, mid, between, done, r, next, after);
    let buf = writer.buf@;
    lemma_pushing(taken, buf, writer.inner, cx, writer.written as nat, n, mid, between, done);
    if done == buf.len() {
        assert(next.buf@.skip(0) =~= buf.skip(done as int));
    } else {
        let rest = buf.skip(done as int);
        assert(rest.skip(0) =~= rest);
        assert(taken(next.inner) =~= taken(mid) + rest.take(0) || taken(next.inner) == taken(mid));
        assert(rest.take(0) =~= Seq::empty());
        assert(taken(mid) + Seq::empty() =~= taken(mid));
    }
}

/// What the writer took, followed by what is in the buffer and not written, grows by the bytes
/// that were accepted and by nothing else: no byte is lost, doubled or moved, whatever comes of
/// writing. `taken` tells for the writer what it took so far.
pub proof fn law_no_byte_lost<W: AsyncWrite>(
    taken: spec_fn(W) -> Seq<u8>,
    writer: BufferWriter<W>,
    cx: Context,
    buf: Seq<u8>,
    r: Poll<Result<usize, Error>>,
    next: BufferWriter<W>,
    after: Context,
)
    requires
        tells_taken(taken),
        writer.wf(),
        writer.writes(cx, buf, r, next, after),
        buf.len() <= usize::MAX,
    ensures
        taken(next.inner) + next.buf@.skip(next.written as int) == taken(writer.inner)
            + writer.buf@.skip(writer.written as int) + (match r {
            Poll::Ready(Ok(n)) => buf.take(n as int),
            _ => Seq::empty(),
        }),
{
    let (first, mid, between) = choose|
        first: Poll<Result<(), Error>>,
        mid: BufferWriter<W>,
        between: Context,
    | #[trigger]
        writer.emptied_then_wrote(cx, buf, first, mid, between, r, next, after);
    if writer.buf@.len() + buf.len() > writer.capacity {
        lemma_empties(taken, writer, cx, first, mid, between);
    }
    let before = taken(writer.inner) + writer.buf@.skip(writer.written as int);
    let left = mid.buf@.skip(mid.written as int);
    assert(taken(mid.inner) + left == before);
    if first matches Poll::Ready(Ok(_)) {
        if buf.len() >= writer.capacity {
            assert(left =~= Seq::empty());
            assert(taken(mid.inner) =~= before);
            match r {
                Poll::Ready(Ok(n)) => {
                    assert(taken(next.inner) + left =~= before + buf.take(n as int));
                },
                _ => {
                    assert(taken(next.inner) + left =~= before + Seq::empty());
                },
            }
        } else {
            assert(next.buf@.skip(next.written as int) =~= left + buf);
            assert(buf.take(buf.len() as int) =~= buf);
            assert(taken(mid.inner) + (left + buf) =~= before + buf);
        }
    } else {
        assert(before + Seq::empty() =~= before);
    }
}

/// When flushing has succeeded, the writer took all that was in the buffer.
pub proof fn law_flushed<W: AsyncWrite>(
    taken: spec_fn(W) -> Seq<u8>,
    writer: BufferWriter<W>,
    cx: Context,
    next: BufferWriter<W>,
    after: Context,
)
    requires
        tells_taken(taken),
        forall|a: W, cx: Context, r: Poll<Result<(), Error>>, b: W, after: Context| #[trigger]
            a.flushes(cx, r, b, after) ==> taken(b) == taken(a),
        writer.wf(),
        writer.flushes(cx, Poll::Ready(Ok(())), next, after),
    ensures
        next.buf@.len() == 0,
        taken(next.inner) == taken(writer.inner) + writer.buf@.skip(writer.written as int),
{
    let r = Poll::Ready(Ok::<(), Error>(()));
    let (first, mid, between) = choose|
        first: Poll<Result<(), Error>>,
        mid: BufferWriter<W>,
        between: Context,
    | #[trigger]
        writer.emptied_then_ended(cx, false, first, mid, between, r, next, after);
    lemma_empties(taken, writer, cx, first, mid, between);
    assert(mid.buf@.skip(0) =~= Seq::empty());
    assert(taken(mid.inner) + Seq::empty() =~= taken(mid.inner));
    assert(mid.inner.flushes(between, r, next.inner, after));
}

/// When closing has succeeded, the writer took all that was in the buffer before it was closed.
pub proof fn law_closed<W: AsyncWrite>(
    taken: spec_fn(W) -> Seq<u8>,
    writer: BufferWriter<W>,
    cx: Context,
    next: BufferWriter<W>,
    after: Context,
)
    requires
        tells_taken(taken),
        forall|a: W, cx: Context, r: Poll<Result<(), Error>>, b: W, after: Context| #[trigger]
            a.closes(cx, r, b, after) ==> taken(b) == taken(a),
        writer.wf(),
        writer.closes(cx, Poll::Ready(Ok(())), next, after),
    ensures
        next.buf@.len() == 0,
        taken(next.inner) == taken(writer.inner) + writer.buf@.skip(writer.written as int),
        exists|mid: W, between: Context| #[trigger]
            mid.closes(between, Poll::Ready(Ok(())), next.inner, after),
{
    let r = Poll::Ready(Ok::<(), Error>(()));
    let (first, mid, between) = choose|
        first: Poll<Result<(), Error>>,
        mid: BufferWriter<W>,
        between: Context,
    | #[trigger]
        writer.emptied_then_ended(cx, true, first, mid, between, r, next, after);
    lemma_empties(taken, writer, cx, first, mid, between);
    assert(mid.buf@.skip(0) =~= Seq::empty());
    assert(taken(mid.inner) + Seq::empty() =~= taken(mid.inner));
    assert(mid.inner.closes(between, r, next.inner, after));
}

/// Flushing and closing lose no byte either, whatever comes of them: what the buffer could not get
/// rid of stays in it. An error of the writer is handed on, and the writer is told to flush or to
/// close only once it took all of the buffer.
pub proof fn law_no_byte_lost_at_the_end<W: AsyncWrite>(
    taken: spec_fn(W) -> Seq<u8>,
    writer: BufferWriter<W>,
    cx: Context,
    close: bool,
    first: Poll<Result<(), Error>>,
    mid: BufferWriter<W>,
    between: Context,
    r: Poll<Result<(), Error>>,
    next: BufferWriter<W>,
    after: Context,
)
    requires
        tells_taken(taken),
        forall|a: W, cx: Context, r: Poll<Result<(), Error>>, b: W, after: Context| #[trigger]
            a.flushes(cx, r, b, after) ==> taken(b) == taken(a),
        forall|a: W, cx: Context, r: Poll<Result<(), Error>>, b: W, after: Context| #[trigger]
            a.closes(cx, r, b, after) ==> taken(b) == taken(a),
        writer.wf(),
        writer.emptied_then_ended(cx, close, first, mid, between, r, next, after),
    ensures
        taken(next.inner) + next.buf@.skip(next.written as int) == taken(writer.inner)
            + writer.buf@.skip(writer.written as int),
        first matches Poll::Ready(Err(e)) ==> r == Poll::Ready(Err::<(), Error>(e)),
        first is Pending ==> r is Pending,
        r matches Poll::Ready(Ok(_)) ==> next.buf@.len() == 0,
        (first matches Poll::Ready(Ok(_))) && close ==> mid.inner.closes(
            between,
            r,
            next.inner,
            after,
        ),
        (first matches Poll::Ready(Ok(_))) && !close ==> mid.inner.flushes(
            between,
            r,
            next.inner,
            after,
        ),
        next.capacity == writer.capacity,
{
    lemma_empties(taken, writer, cx, first, mid, between);
    let before = taken(writer.inner) + writer.buf@.skip(writer.written as int);
    if first matches Poll::Ready(Ok(_)) {
        if close {
            assert(mid.inner.closes(between, r, next.inner, after));
        } else {
            assert(mid.inner.flushes(between, r, next.inner, after));
        }
    }
}

/// Bytes for which there is room in the buffer are accepted at once, all of them, and the writer is
/// not asked; the buffer never holds more than it may.
pub proof fn law_buffered<W: AsyncWrite>(
    writer: BufferWriter<W>,
    cx: Context,
    buf: Seq<u8>,
    r: Poll<Result<usize, Error>>,
    next: BufferWriter<W>,
    after: Context,
)
    requires
        writer.wf(),
        writer.writes(cx, buf, r, next, after),
        buf.len() <= usize::MAX,
    ensures
        writer.buf@.len() + buf.len() <= writer.capacity && buf.len() < writer.capacity ==> {
            &&& r == Poll::Ready(Ok::<usize, Error>(buf.len() as usize))
            &&& next.inner == writer.inner
            &&& next.buf@ == writer.buf@ + buf
            &&& after == cx
        },
        next.capacity == writer.capacity,
        next.buf@.len() <= next.capacity,
{
    let (first, mid, between) = choose|
        first: Poll<Result<(), Error>>,
        mid: BufferWriter<W>,
        between: Context,
    | #[trigger]
        writer.emptied_then_wrote(cx, buf, first, mid, between, r, next, after);
    if writer.buf@.len() + buf.len() > writer.capacity {
        let (n, w, c, done) = choose|n: nat, w: W, c: Context, done: nat| #[trigger]
            writer.emptied(cx, n, w, c, done, first, mid, between);
        assert(mid.buf@.len() <= writer.buf@.len());
    }
}

/// The writer goes to another position only once it took all that was in the buffer, and no byte is
/// lost on the way.
pub proof fn law_sought<W: AsyncWrite + AsyncSeek>(
    taken: spec_fn(W) -> Seq<u8>,
    writer: BufferWriter<W>,
    cx: Context,
    pos: SeekFrom,
    first: Poll<Result<(), Error>>,
    mid: BufferWriter<W>,
    between: Context,
    r: Poll<Result<u64, Error>>,
    next: BufferWriter<W>,
    after: Context,
)
    requires
        tells_taken(taken),
        writer.wf(),
        writer.emptied_then_sought(cx, pos, first, mid, between, r, next, after),
    ensures
        taken(mid.inner) + mid.buf@.skip(mid.written as int) == taken(writer.inner)
            + writer.buf@.skip(writer.written as int),
        first matches Poll::Ready(Ok(_)) ==> {
            &&& mid.buf@.len() == 0
            &&& mid.inner.seeks(between, pos, r, next.inner, after)
            &&& next.buf@.len() == 0
        },
        first matches Poll::Ready(Err(e)) ==> r == Poll::Ready(Err::<u64, Error>(e)) && next == mid,
        first is Pending ==> r is Pending && next == mid,
{
    lemma_empties(taken, writer, cx, first, mid, between);
}

} // verus!
