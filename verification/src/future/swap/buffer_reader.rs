//! Reading through a buffer.

use vstd::prelude::*;
use crate::future::swap::traits::{moves, AsyncBufRead, AsyncRead, AsyncSeek, Io};
use crate::io::error::Error;
use crate::io::stream::{copy_bytes, smaller, SeekFrom};
use crate::task::{Context, Poll};

verus! {

/// How many bytes a buffer holds if nothing else is said.
pub const DEFAULT_BUFSZ: usize = 8192;

/// Reads through a buffer.
pub struct BufferReader<R> {
    pub inner: R,
    pub buf: Vec<u8>,
    /// Where the bytes start that were not consumed yet.
    pub pos: usize,
    /// Where the bytes end that were read.
    pub cap: usize,
}

impl<R: AsyncRead> BufferReader<R> {
    /// Reads through a buffer of the usual size.
    pub fn new(inner: R) -> (r: BufferReader<R>)
        requires
            inner.wf(),
        ensures
            r.wf(),
            r.inner == inner,
            r.held() == Seq::<u8>::empty(),
            r.buf@.len() == DEFAULT_BUFSZ,
    {
        BufferReader::with_capacity(DEFAULT_BUFSZ, inner)
    }

    pub fn with_capacity(capacity: usize, inner: R) -> (r: BufferReader<R>)
        requires
            inner.wf(),
            capacity <= isize::MAX,
        ensures
            r.wf(),
            r.inner == inner,
            r.held() == Seq::<u8>::empty(),
            r.buf@.len() == capacity,
    {
        let mut buf: Vec<u8> = Vec::new();
        buf.resize(capacity, 0);
        let r = BufferReader { inner, buf, pos: 0, cap: 0 };
        assert(r.held() =~= Seq::<u8>::empty());
        r
    }
}

impl<R> BufferReader<R> {
    /// The marks lie within the buffer.
    pub open spec fn sound(&self) -> bool {
        self.pos <= self.cap <= self.buf@.len() <= isize::MAX
    }

    /// The bytes that were read and not consumed yet.
    pub open spec fn waiting(&self) -> Seq<u8> {
        self.buf@.subrange(self.pos as int, self.cap as int)
    }

    /// The buffer is the same, and nothing in it is left to consume.
    pub open spec fn emptied(&self, next: &Self) -> bool {
        next.buf == self.buf && next.pos == 0 && next.cap == 0
    }

    /// The buffer is the same, and what there is in it to consume.
    pub open spec fn undisturbed(&self, next: &Self) -> bool {
        next.buf == self.buf && next.pos == self.pos && next.cap == self.cap
    }

    pub fn get_ref(&self) -> (r: &R)
        ensures
            *r == self.inner,
    {
        &self.inner
    }

    pub fn get_mut(&mut self) -> (r: &mut R)
        ensures
            *r == old(self).inner,
            final(self).inner == *final(r),
            old(self).undisturbed(final(self)),
    {
        &mut self.inner
    }

    /// The bytes that were read and not consumed yet.
    pub fn buffer(&self) -> (r: &[u8])
        requires
            self.sound(),
        ensures
            r@ == self.waiting(),
    {
        vstd::slice::slice_subrange(self.buf.as_slice(), self.pos, self.cap)
    }

    /// What was read through the buffer. Bytes in the buffer are lost.
    pub fn into_inner(self) -> (r: R)
        ensures
            r == self.inner,
    {
        self.inner
    }

    fn discard_buffer(&mut self)
        ensures
            old(self).emptied(final(self)),
            final(self).inner == old(self).inner,
    {
        self.pos = 0;
        self.cap = 0;
    }
}

impl<R: AsyncRead> BufferReader<R> {
    /// What the reader must have given for the buffer to show `r`.
    pub open spec fn behind(r: Poll<Result<Seq<u8>, Error>>, cap: usize) -> Poll<
        Result<usize, Error>,
    > {
        match r {
            Poll::Ready(Ok(_)) => Poll::Ready(Ok(cap)),
            Poll::Ready(Err(e)) => Poll::Ready(Err(e)),
            Poll::Pending => Poll::Pending,
        }
    }

    /// Filling the buffer. The reader is asked only if the buffer is empty.
    pub open spec fn filling(
        self,
        cx: Context,
        r: Poll<Result<Seq<u8>, Error>>,
        next: Self,
        after: Context,
    ) -> bool {
        if self.pos < self.cap {
            &&& r == Poll::Ready(Ok::<Seq<u8>, Error>(self.waiting()))
            &&& next == self
            &&& after == cx
        } else {
            &&& self.inner.reads(
                cx,
                self.buf@,
                Self::behind(r, next.cap),
                next.inner,
                next.buf@,
                after,
            )
            &&& match r {
                Poll::Ready(Ok(bytes)) => {
                    next.pos == 0 && bytes == next.buf@.take(next.cap as int)
                },
                _ => next.pos == self.pos && next.cap == self.cap,
            }
        }
    }

    /// Consuming bytes, at most those that are there.
    pub open spec fn consuming(self, amount: nat, next: Self) -> bool {
        &&& next.inner == self.inner
        &&& next.buf == self.buf
        &&& next.cap == self.cap
        &&& next.pos == smaller(self.pos as nat + amount, self.cap as nat)
    }

    /// The buffer showed `shown` and became `mid`, and as many of those bytes were taken as there
    /// was room for.
    pub open spec fn read_through(
        self,
        cx: Context,
        room: Seq<u8>,
        shown: Poll<Result<Seq<u8>, Error>>,
        mid: Self,
        r: Poll<Result<usize, Error>>,
        next: Self,
        buf: Seq<u8>,
        after: Context,
    ) -> bool {
        &&& self.filling(cx, shown, mid, after)
        &&& match shown {
            Poll::Ready(Ok(bytes)) => {
                let n = smaller(bytes.len(), room.len());
                &&& r == Poll::Ready(Ok::<usize, Error>(n as usize))
                &&& buf == bytes.take(n as int) + room.skip(n as int)
                &&& mid.consuming(n, next)
            },
            Poll::Ready(Err(e)) => {
                &&& r == Poll::Ready(Err::<usize, Error>(e))
                &&& buf == room
                &&& next == mid
            },
            Poll::Pending => {
                &&& r is Pending
                &&& buf == room
                &&& next == mid
            },
        }
    }

    proof fn lemma_pace(pace: nat, less: nat, len: nat, held: nat)
        requires
            less < pace,
            held <= len,
        ensures
            less * (len + 1) + held < pace * (len + 1),
    {
        assert(less * (len + 1) + (len + 1) <= pace * (len + 1)) by (nonlinear_arith)
            requires
                less < pace,
        ;
    }
}

impl<R: Io> Io for BufferReader<R> {
    open spec fn wf(&self) -> bool {
        self.sound() && self.inner.wf()
    }
}

impl<R: AsyncRead> AsyncRead for BufferReader<R> {
    open spec fn endless(&self) -> bool {
        self.inner.endless()
    }

    open spec fn pace(&self) -> nat {
        self.inner.pace() * (self.buf@.len() + 1) + self.waiting().len()
    }

    /// If the buffer is empty and too small to be of use, the bytes are read past it.
    open spec fn reads(
        self,
        cx: Context,
        room: Seq<u8>,
        r: Poll<Result<usize, Error>>,
        next: Self,
        buf: Seq<u8>,
        after: Context,
    ) -> bool {
        if self.pos == self.cap && room.len() >= self.buf@.len() {
            &&& self.inner.reads(cx, room, r, next.inner, buf, after)
            &&& if r is Ready {
                self.emptied(&next)
            } else {
                self.undisturbed(&next)
            }
        } else {
            exists|shown: Poll<Result<Seq<u8>, Error>>, mid: Self| #[trigger]
                self.read_through(cx, room, shown, mid, r, next, buf, after)
        }
    }

    fn poll_read(&mut self, cx: &mut Context, buf: &mut [u8]) -> (r: Poll<Result<usize, Error>>) {
        if self.pos == self.cap && buf.len() >= self.buf.len() {
            let r = self.inner.poll_read(cx, buf);
            proof {
                if !old(self).inner.endless() && moves(r) {
                    Self::lemma_pace(
                        old(self).inner.pace(),
                        self.inner.pace(),
                        self.buf@.len(),
                        0,
                    );
                }
            }
            match r {
                Poll::Pending => {},
                Poll::Ready(_) => self.discard_buffer(),
            }
            return r;
        }
        let filled = self.poll_fill_buf(cx);
        match filled {
            Poll::Pending => {
                assert(old(self).read_through(
                    *old(cx),
                    old(buf)@,
                    Poll::Pending,
                    *self,
                    Poll::Pending,
                    *self,
                    buf@,
                    *cx,
                ));
                Poll::Pending
            },
            Poll::Ready(Err(e)) => {
                let r = Poll::Ready(Err(e));
                assert(old(self).read_through(
                    *old(cx),
                    old(buf)@,
                    Poll::Ready(Err(e)),
                    *self,
                    r,
                    *self,
                    buf@,
                    *cx,
                ));
                r
            },
            Poll::Ready(Ok(bytes)) => {
                let ghost held = bytes@;
                let nread: usize = if bytes.len() < buf.len() {
                    bytes.len()
                } else {
                    buf.len()
                };
                copy_bytes(bytes, 0, buf, 0, nread);
                let ghost mid = *self;
                self.consume(nread);
                let r = Poll::Ready(Ok(nread));
                proof {
                    assert(buf@ =~= held.take(nread as int) + old(buf)@.skip(nread as int));
                    assert(old(self).read_through(
                        *old(cx),
                        old(buf)@,
                        Poll::Ready(Ok(held)),
                        mid,
                        r,
                        *self,
                        buf@,
                        *cx,
                    ));
                }
                r
            },
        }
    }
}

impl<R: AsyncRead> AsyncBufRead for BufferReader<R> {
    open spec fn held(&self) -> Seq<u8> {
        self.waiting()
    }

    open spec fn fills(
        self,
        cx: Context,
        r: Poll<Result<Seq<u8>, Error>>,
        next: Self,
        after: Context,
    ) -> bool {
        self.filling(cx, r, next, after)
    }

    open spec fn consumes(self, amount: nat, next: Self) -> bool {
        self.consuming(amount, next)
    }

    open spec fn tolerates(&self, amount: nat) -> bool {
        self.pos + amount <= usize::MAX
    }

    fn poll_fill_buf(&mut self, cx: &mut Context) -> (r: Poll<Result<&[u8], Error>>) {
        if self.pos >= self.cap {
            match self.inner.poll_read(cx, self.buf.as_mut_slice()) {
                Poll::Pending => return Poll::Pending,
                Poll::Ready(Err(e)) => return Poll::Ready(Err(e)),
                Poll::Ready(Ok(n)) => {
                    self.cap = n;
                    self.pos = 0;
                    proof {
                        if !old(self).inner.endless() && n > 0 {
                            Self::lemma_pace(
                                old(self).inner.pace(),
                                self.inner.pace(),
                                self.buf@.len(),
                                n as nat,
                            );
                        }
                        assert(self.waiting() =~= self.buf@.take(n as int));
                    }
                },
            }
        }
        Poll::Ready(Ok(self.buffer()))
    }

    fn consume(&mut self, amount: usize) {
        let to: usize = self.pos + amount;
        self.pos = if to < self.cap {
            to
        } else {
            self.cap
        };
    }
}

impl<R: AsyncSeek> BufferReader<R> {
    /// The position was changed past the buffer, and what the buffer holds is worth nothing if
    /// that went well.
    pub open spec fn sought(
        self,
        cx: Context,
        pos: SeekFrom,
        r: Poll<Result<u64, Error>>,
        next: Self,
        after: Context,
    ) -> bool {
        &&& self.inner.seeks(cx, pos, r, next.inner, after)
        &&& if r matches Poll::Ready(Ok(_)) {
            self.emptied(&next)
        } else {
            self.undisturbed(&next)
        }
    }

    /// The position was changed twice: back over the bytes in the buffer, which gave `first`,
    /// and then by `n`.
    pub open spec fn sought_twice(
        self,
        cx: Context,
        n: i64,
        first: Poll<Result<u64, Error>>,
        mid: R,
        between: Context,
        r: Poll<Result<u64, Error>>,
        next: Self,
        after: Context,
    ) -> bool {
        let back = -(self.cap - self.pos);
        &&& self.inner.seeks(cx, SeekFrom::Current(back as i64), first, mid, between)
        &&& match first {
            Poll::Ready(Ok(_)) => {
                &&& mid.seeks(between, SeekFrom::Current(n), r, next.inner, after)
                &&& self.emptied(&next)
            },
            _ => {
                &&& r == first
                &&& next.inner == mid
                &&& after == between
                &&& self.undisturbed(&next)
            },
        }
    }
}

impl<R: AsyncSeek> AsyncSeek for BufferReader<R> {
    /// The reader is ahead by the bytes in the buffer, which counts where the way is given from
    /// the present position.
    open spec fn seeks(
        self,
        cx: Context,
        pos: SeekFrom,
        r: Poll<Result<u64, Error>>,
        next: Self,
        after: Context,
    ) -> bool {
        match pos {
            SeekFrom::Current(n) => if n - (self.cap - self.pos) >= i64::MIN {
                self.sought(
                    cx,
                    SeekFrom::Current((n - (self.cap - self.pos)) as i64),
                    r,
                    next,
                    after,
                )
            } else {
                exists|first: Poll<Result<u64, Error>>, mid: R, between: Context| #[trigger]
                    self.sought_twice(cx, n, first, mid, between, r, next, after)
            },
            _ => self.sought(cx, pos, r, next, after),
        }
    }

    fn poll_seek(&mut self, cx: &mut Context, pos: SeekFrom) -> (r: Poll<Result<u64, Error>>) {
        let r = match pos {
            SeekFrom::Current(n) => {
                let remainder: i64 = (self.cap - self.pos) as i64;
                match n.checked_sub(remainder) {
                    Some(offset) => self.inner.poll_seek(cx, SeekFrom::Current(offset)),
                    None => {
                        match self.inner.poll_seek(cx, SeekFrom::Current(-remainder)) {
                            Poll::Pending => {
                                assert(old(self).sought_twice(
                                    *old(cx),
                                    n,
                                    Poll::Pending,
                                    self.inner,
                                    *cx,
                                    Poll::Pending,
                                    *self,
                                    *cx,
                                ));
                                return Poll::Pending;
                            },
                            Poll::Ready(Err(e)) => {
                                let r = Poll::Ready(Err(e));
                                assert(old(self).sought_twice(
                                    *old(cx),
                                    n,
                                    Poll::Ready(Err(e)),
                                    self.inner,
                                    *cx,
                                    r,
                                    *self,
                                    *cx,
                                ));
                                return r;
                            },
                            Poll::Ready(Ok(at)) => {
                                self.discard_buffer();
                                let ghost mid = self.inner;
                                let ghost between = *cx;
                                let r = self.inner.poll_seek(cx, SeekFrom::Current(n));
                                assert(old(self).sought_twice(
                                    *old(cx),
                                    n,
                                    Poll::Ready(Ok(at)),
                                    mid,
                                    between,
                                    r,
                                    *self,
                                    *cx,
                                ));
                                return r;
                            },
                        }
                    },
                }
            },
            _ => self.inner.poll_seek(cx, pos),
        };
        match r {
            Poll::Ready(Ok(_)) => self.discard_buffer(),
            _ => {},
        }
        r
    }
}

/// What was handed out, followed by what is in the buffer, is what the reader gave: no byte is
/// lost, doubled or moved. `given` tells for the reader what it gave so far, and `out` is what
/// was handed out before.
pub proof fn law_no_byte_lost<R: AsyncRead>(
    given: spec_fn(R) -> Seq<u8>,
    out: Seq<u8>,
    reader: BufferReader<R>,
    cx: Context,
    room: Seq<u8>,
    r: Poll<Result<usize, Error>>,
    next: BufferReader<R>,
    buf: Seq<u8>,
    after: Context,
)
    requires
        forall|
            a: R,
            cx: Context,
            room: Seq<u8>,
            r: Poll<Result<usize, Error>>,
            b: R,
            buf: Seq<u8>,
            after: Context,
        | #[trigger]
            a.reads(cx, room, r, b, buf, after) ==> given(b) == (match r {
                Poll::Ready(Ok(n)) => given(a) + buf.take(n as int),
                _ => given(a),
            }),
        reader.wf(),
        given(reader.inner) == out + reader.held(),
        reader.reads(cx, room, r, next, buf, after),
        next.wf(),
        buf.len() == room.len(),
        r matches Poll::Ready(Ok(n)) ==> n <= room.len(),
    ensures
        given(next.inner) == (match r {
            Poll::Ready(Ok(n)) => out + buf.take(n as int),
            _ => out,
        }) + next.held(),
{
    if reader.pos == reader.cap && room.len() >= reader.buf@.len() {
        assert(reader.held() =~= Seq::empty());
        assert(next.held() =~= Seq::empty());
        assert(given(reader.inner) =~= out);
        assert(reader.inner.reads(cx, room, r, next.inner, buf, after));
    } else {
        let (shown, mid) = choose|shown: Poll<Result<Seq<u8>, Error>>, mid: BufferReader<R>|
         #[trigger]
            reader.read_through(cx, room, shown, mid, r, next, buf, after);
        assert(given(mid.inner) == out + mid.waiting()) by {
            if reader.pos >= reader.cap {
                assert(reader.held() =~= Seq::empty());
                assert(given(reader.inner) =~= out);
                assert(mid.waiting() =~= (match shown {
                    Poll::Ready(Ok(bytes)) => bytes,
                    _ => Seq::empty(),
                }));
            }
        }
        if let Poll::Ready(Ok(bytes)) = shown {
            let n = smaller(bytes.len(), room.len());
            assert(mid.waiting() =~= bytes);
            assert(buf.take(n as int) =~= bytes.take(n as int));
            assert(next.waiting() =~= bytes.skip(n as int));
            assert(out + bytes =~= out + bytes.take(n as int) + bytes.skip(n as int));
        }
    }
}

/// What the buffer shows is what is left to consume, and the reader is asked only where nothing is;
/// what is consumed is gone, from the front, and nothing else.
pub proof fn law_shown_then_consumed<R: AsyncRead>(
    reader: BufferReader<R>,
    cx: Context,
    r: Poll<Result<Seq<u8>, Error>>,
    mid: BufferReader<R>,
    after: Context,
    amount: nat,
    next: BufferReader<R>,
)
    requires
        reader.wf(),
        reader.fills(cx, r, mid, after),
        mid.wf(),
        mid.consumes(amount, next),
    ensures
        reader.held().len() > 0 ==> r == Poll::Ready(Ok::<Seq<u8>, Error>(reader.held())) && mid
            == reader && after == cx,
        r matches Poll::Ready(Ok(bytes)) ==> mid.held() == bytes,
        !(r matches Poll::Ready(Ok(_))) ==> mid.held() == reader.held(),
        next.inner == mid.inner,
        amount <= mid.held().len() ==> next.held() == mid.held().skip(amount as int),
        amount >= mid.held().len() ==> next.held().len() == 0,
{
    assert(reader.held().len() == reader.cap - reader.pos);
    if r matches Poll::Ready(Ok(_)) {
        if reader.pos >= reader.cap {
            assert(mid.held() =~= r->Ready_0->Ok_0);
        }
    } else {
        assert(mid.held() =~= reader.held()) by {
            assert(reader.held().len() == 0);
            assert(mid.held().len() == 0);
        }
    }
    if amount <= mid.held().len() {
        assert(next.held() =~= mid.held().skip(amount as int));
    }
}

/// Where there are bytes in the buffer, they are handed out without asking the reader: as many as
/// there is room for, from the front.
pub proof fn law_handed_out_at_once<R: AsyncRead>(
    reader: BufferReader<R>,
    cx: Context,
    room: Seq<u8>,
    r: Poll<Result<usize, Error>>,
    next: BufferReader<R>,
    buf: Seq<u8>,
    after: Context,
)
    requires
        reader.wf(),
        reader.held().len() > 0,
        reader.reads(cx, room, r, next, buf, after),
        room.len() <= usize::MAX,
    ensures
        ({
            let n = if reader.held().len() < room.len() {
                reader.held().len() as int
            } else {
                room.len() as int
            };
            &&& r == Poll::Ready(Ok::<usize, Error>(n as usize))
            &&& buf == reader.held().take(n) + room.skip(n)
            &&& next.held() == reader.held().skip(n)
        }),
        next.inner == reader.inner,
        after == cx,
{
    let (shown, mid) = choose|shown: Poll<Result<Seq<u8>, Error>>, mid: BufferReader<R>| #[trigger]
        reader.read_through(cx, room, shown, mid, r, next, buf, after);
    let n = smaller(reader.held().len(), room.len());
    assert(next.held() =~= reader.held().skip(n as int));
}

/// `at` tells for a reader where it stands, as far as it is told to go on from there.
pub open spec fn tells_position<R: AsyncSeek>(at: spec_fn(R) -> int) -> bool {
    forall|a: R, cx: Context, k: i64, r: Poll<Result<u64, Error>>, b: R, after: Context|
        #![trigger a.seeks(cx, SeekFrom::Current(k), r, b, after)]
        a.seeks(cx, SeekFrom::Current(k), r, b, after) ==> at(b) == (if r matches Poll::Ready(
            Ok(_),
        ) {
            at(a) + k
        } else {
            at(a)
        })
}

/// Whoever reads through the buffer stands before the bytes in it, behind which the reader stands:
/// they go on from there, and what is in the buffer is then worth nothing. `at` tells where the
/// reader stands.
pub proof fn law_goes_on_from_there<R: AsyncSeek>(
    at: spec_fn(R) -> int,
    reader: BufferReader<R>,
    cx: Context,
    n: i64,
    r: Poll<Result<u64, Error>>,
    next: BufferReader<R>,
    after: Context,
)
    requires
        tells_position(at),
        reader.sound(),
        reader.seeks(cx, SeekFrom::Current(n), r, next, after),
    ensures
        r matches Poll::Ready(Ok(_)) ==> at(next.inner) == at(reader.inner)
            - reader.waiting().len() + n && next.waiting().len() == 0,
{
    let held = reader.cap - reader.pos;
    assert(reader.waiting().len() == held);
    if n - held >= i64::MIN {
        assert(reader.inner.seeks(cx, SeekFrom::Current((n - held) as i64), r, next.inner, after));
        if r matches Poll::Ready(Ok(_)) {
            assert(next.waiting() =~= Seq::empty());
        }
    } else {
        let (first, mid, between) = choose|
            first: Poll<Result<u64, Error>>,
            mid: R,
            between: Context,
        | #[trigger]
            reader.sought_twice(cx, n, first, mid, between, r, next, after);
        let back = -held;
        assert(reader.inner.seeks(cx, SeekFrom::Current(back as i64), first, mid, between));
        if first matches Poll::Ready(Ok(_)) {
            assert(mid.seeks(between, SeekFrom::Current(n), r, next.inner, after));
            assert(next.waiting() =~= Seq::empty());
        }
    }
}

/// Whoever is told where to go is told so past the buffer; and as long as that has not succeeded,
/// the buffer is as it was.
pub proof fn law_goes_past_the_buffer<R: AsyncSeek>(
    reader: BufferReader<R>,
    cx: Context,
    pos: SeekFrom,
    r: Poll<Result<u64, Error>>,
    next: BufferReader<R>,
    after: Context,
)
    requires
        reader.sound(),
        !(pos is Current),
        reader.seeks(cx, pos, r, next, after),
    ensures
        reader.inner.seeks(cx, pos, r, next.inner, after),
        r matches Poll::Ready(Ok(_)) ==> next.waiting().len() == 0,
        !(r matches Poll::Ready(Ok(_))) ==> next.waiting() == reader.waiting(),
{
}

} // verus!
