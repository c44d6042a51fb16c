//! Reading into several buffers, and writing from several, at once.

use vstd::prelude::*;
use crate::future::future::continues;
use crate::future::swap::adapters::{Bytes, Chain, Take};
use crate::future::swap::assert_async::AssertAsync;
use crate::future::swap::buffer_reader::BufferReader;
use crate::future::swap::buffer_writer::BufferWriter;
use crate::future::swap::cursor::{AsBytes, Cursor};
use crate::future::swap::plain::{Empty, Repeat, Sink};
use crate::future::swap::traits::{interrupted, AsyncBufRead, AsyncRead, AsyncWrite};
use crate::io::error::{Error, ErrorKind};
use crate::io::stream::{broken_off, copy_bytes, smaller, Collector, Read, SliceReader, Write};
use crate::task::{Context, Poll};

verus! {

/// The buffers one after the other.
pub open spec fn flat(bufs: Seq<Vec<u8>>) -> Seq<u8>
    decreases bufs.len(),
{
    if bufs.len() == 0 {
        Seq::empty()
    } else {
        flat(bufs.drop_last()) + bufs.last()@
    }
}

/// The buffers are as long as they were.
pub open spec fn same_shape(a: Seq<Vec<u8>>, b: Seq<Vec<u8>>) -> bool {
    &&& a.len() == b.len()
    &&& forall|i: int| 0 <= i < a.len() ==> (#[trigger] a[i])@.len() == b[i]@.len()
}

proof fn lemma_flat_take(bufs: Seq<Vec<u8>>, k: nat)
    requires
        k <= bufs.len(),
    ensures
        flat(bufs.take(k as int)).is_prefix_of(flat(bufs)),
        k < bufs.len() ==> flat(bufs.take(k as int + 1)) == flat(bufs.take(k as int)) + bufs[k as int]@,
    decreases bufs.len() - k,
{
    if k == bufs.len() {
        assert(bufs.take(k as int) =~= bufs);
    } else {
        lemma_flat_take(bufs, k + 1);
        assert(bufs.take(k as int + 1).drop_last() =~= bufs.take(k as int));
        let front = flat(bufs.take(k as int));
        let longer = flat(bufs.take(k as int + 1));
        assert(longer == front + bufs[k as int]@);
        assert(flat(bufs).take(longer.len() as int) =~= longer);
        assert(flat(bufs).take(front.len() as int) =~= longer.take(front.len() as int));
        assert(longer.take(front.len() as int) =~= front);
    }
}

proof fn lemma_flat_shape(a: Seq<Vec<u8>>, b: Seq<Vec<u8>>)
    requires
        same_shape(a, b),
    ensures
        flat(a).len() == flat(b).len(),
    decreases a.len(),
{
    if a.len() > 0 {
        assert(a[a.len() - 1]@.len() == b[b.len() - 1]@.len());
        assert forall|i: int| 0 <= i < a.len() - 1 implies (#[trigger] a.drop_last()[i])@.len()
            == b.drop_last()[i]@.len() by {
            assert(a[i]@.len() == b[i]@.len());
        }
        lemma_flat_shape(a.drop_last(), b.drop_last());
    }
}

proof fn lemma_flat_same(a: Seq<Vec<u8>>, b: Seq<Vec<u8>>)
    requires
        a.len() == b.len(),
        forall|i: int| 0 <= i < a.len() ==> (#[trigger] a[i])@ == b[i]@,
    ensures
        flat(a) == flat(b),
    decreases a.len(),
{
    if a.len() > 0 {
        assert(a[a.len() - 1]@ == b[b.len() - 1]@);
        assert forall|i: int| 0 <= i < a.len() - 1 implies (#[trigger] a.drop_last()[i])@
            == b.drop_last()[i]@ by {
            assert(a[i]@ == b[i]@);
        }
        lemma_flat_same(a.drop_last(), b.drop_last());
    }
}

/// How long the buffers are in all.
fn total_len(bufs: &Vec<Vec<u8>>) -> (r: usize)
    requires
        flat(bufs@).len() <= usize::MAX,
    ensures
        r == flat(bufs@).len(),
{
    let mut i: usize = 0;
    let mut total: usize = 0;
    while i < bufs.len()
        invariant
            i <= bufs@.len(),
            total == flat(bufs@.take(i as int)).len(),
            flat(bufs@).len() <= usize::MAX,
        decreases bufs@.len() - i,
    {
        proof {
            lemma_flat_take(bufs@, i as nat);
            lemma_flat_take(bufs@, (i + 1) as nat);
        }
        total = total + bufs[i].len();
        i = i + 1;
    }
    assert(bufs@.take(i as int) =~= bufs@);
    total
}

/// Fills the buffers one after the other with the front of `bytes`.
fn scatter(bytes: &[u8], bufs: &mut Vec<Vec<u8>>) -> (r: usize)
    ensures
        r == smaller(bytes@.len(), flat(old(bufs)@).len()),
        same_shape(old(bufs)@, final(bufs)@),
        flat(final(bufs)@) == bytes@.take(r as int) + flat(old(bufs)@).skip(r as int),
{
    let mut i: usize = 0;
    let mut done: usize = 0;
    let ghost before = bufs@;
    assert(bytes.len() == bytes@.len());
    while i < bufs.len() && done < bytes.len()
        invariant
            i <= bufs@.len(),
            done <= bytes@.len() <= usize::MAX,
            before == old(bufs)@,
            same_shape(before, bufs@),
            done == smaller(bytes@.len(), flat(before.take(i as int)).len()),
            flat(bufs@.take(i as int)) == bytes@.take(done as int) + flat(
                before.take(i as int),
            ).skip(done as int),
            forall|j: int| i <= j < bufs@.len() ==> (#[trigger] bufs@[j])@ == before[j]@,
        decreases bufs@.len() - i,
    {
        let left: usize = bytes.len() - done;
        let ghost now = bufs@;
        let ghost k = i as int;
        assert(bufs@[k]@ == before[k]@);
        let mut one: Vec<u8> = Vec::new();
        std::mem::swap(&mut one, &mut bufs[i]);
        let ghost was = one@;
        let n: usize = if left < one.len() {
            left
        } else {
            one.len()
        };
        copy_bytes(bytes, done, one.as_mut_slice(), 0, n);
        bufs[i] = one;
        proof {
            lemma_flat_take(before, i as nat);
            lemma_flat_take(bufs@, i as nat);
            lemma_flat_same(now.take(k), bufs@.take(k));
            assert(bufs@[k]@ =~= bytes@.subrange(done as int, done + n) + was.skip(n as int));
            assert(flat(bufs@.take(k + 1)) =~= bytes@.take(done + n) + flat(
                before.take(k + 1),
            ).skip(done + n));
        }
        done = done + n;
        i = i + 1;
    }
    proof {
        lemma_flat_take(before, i as nat);
        lemma_flat_rest(before, bufs@, i as nat);
        if done < bytes@.len() {
            assert(before.take(i as int) =~= before);
        }
        assert(flat(bufs@) =~= bytes@.take(done as int) + flat(before).skip(done as int));
    }
    done
}

proof fn lemma_flat_rest(a: Seq<Vec<u8>>, b: Seq<Vec<u8>>, k: nat)
    requires
        same_shape(a, b),
        k <= a.len(),
        forall|j: int| k <= j < b.len() ==> (#[trigger] b[j])@ == a[j]@,
    ensures
        flat(a.take(k as int)).len() == flat(b.take(k as int)).len(),
        flat(a).len() == flat(b).len(),
        flat(a.take(k as int)).len() <= flat(a).len(),
        flat(b) == flat(b.take(k as int)) + flat(a).skip(flat(a.take(k as int)).len() as int),
        flat(a) == flat(a.take(k as int)) + flat(a).skip(flat(a.take(k as int)).len() as int),
    decreases a.len() - k,
{
    lemma_flat_take(a, k);
    lemma_flat_take(b, k);
    if k == a.len() {
        lemma_flat_shape(a, b);
        assert(a.take(k as int) =~= a && b.take(k as int) =~= b);
        assert(flat(b) =~= flat(b) + flat(a).skip(flat(a).len() as int));
        assert(flat(a) =~= flat(a) + flat(a).skip(flat(a).len() as int));
    } else {
        lemma_flat_rest(a, b, k + 1);
        lemma_flat_take(a, k + 1);
        assert(b[k as int]@ == a[k as int]@);
        assert(a[k as int]@.len() == b[k as int]@.len());
        let la = flat(a.take(k as int));
        assert(flat(a) =~= la + flat(a).skip(la.len() as int));
        assert(flat(b) =~= flat(b.take(k as int)) + flat(a).skip(la.len() as int));
    }
}

/// Something that can be read into several buffers at once.
pub trait AsyncReadVectored: AsyncRead {
    /// Reading in `cx` into buffers of the lengths `lens` that hold `room` one after the other
    /// can give `r` and leave `next`, `buf` and `after` behind.
    spec fn reads_vectored(
        self,
        cx: Context,
        lens: Seq<nat>,
        room: Seq<u8>,
        r: Poll<Result<usize, Error>>,
        next: Self,
        buf: Seq<u8>,
        after: Context,
    ) -> bool;

    /// Reads some bytes into the buffers, one after the other.
    fn poll_read_vectored(&mut self, cx: &mut Context, bufs: &mut Vec<Vec<u8>>) -> (r: Poll<
        Result<usize, Error>,
    >)
        requires
            old(self).wf(),
            flat(old(bufs)@).len() <= usize::MAX,
        ensures
            final(self).wf(),
            old(self).reads_vectored(
                *old(cx),
                lens(old(bufs)@),
                flat(old(bufs)@),
                r,
                *final(self),
                flat(final(bufs)@),
                *final(cx),
            ),
            continues(*old(cx), *final(cx)),
            same_shape(old(bufs)@, final(bufs)@),
            r matches Poll::Ready(Ok(n)) ==> n <= flat(old(bufs)@).len(),
    ;
}

/// How long each buffer is.
pub open spec fn lens(bufs: Seq<Vec<u8>>) -> Seq<nat> {
    bufs.map_values(|b: Vec<u8>| b@.len())
}

impl<T: AsBytes> AsyncReadVectored for Cursor<T> {
    open spec fn reads_vectored(
        self,
        cx: Context,
        lens: Seq<nat>,
        room: Seq<u8>,
        r: Poll<Result<usize, Error>>,
        next: Self,
        buf: Seq<u8>,
        after: Context,
    ) -> bool {
        self.reads(cx, room, r, next, buf, after)
    }

    fn poll_read_vectored(&mut self, cx: &mut Context, bufs: &mut Vec<Vec<u8>>) -> (r: Poll<
        Result<usize, Error>,
    >) {
        let n: usize = match self.poll_fill_buf(cx) {
            Poll::Ready(Ok(bytes)) => scatter(bytes, bufs),
            Poll::Ready(Err(e)) => return Poll::Ready(Err(e)),
            Poll::Pending => return Poll::Pending,
        };
        self.consume(n);
        Poll::Ready(Ok(n))
    }
}

impl<R: AsyncReadVectored> AsyncReadVectored for BufferReader<R> {
    open spec fn reads_vectored(
        self,
        cx: Context,
        lens: Seq<nat>,
        room: Seq<u8>,
        r: Poll<Result<usize, Error>>,
        next: Self,
        buf: Seq<u8>,
        after: Context,
    ) -> bool {
        if self.pos == self.cap && room.len() >= self.buf@.len() {
            &&& self.inner.reads_vectored(cx, lens, room, r, next.inner, buf, after)
            &&& if r is Ready {
                self.emptied(&next)
            } else {
                self.undisturbed(&next)
            }
        } else {
            exists|shown: Poll<Result<Seq<u8>, Error>>, mid: Self| #[trigger]
                self.read_through(cx, room, shown, mid, r, next, buf, after)
        }
    }

    fn poll_read_vectored(&mut self, cx: &mut Context, bufs: &mut Vec<Vec<u8>>) -> (r: Poll<
        Result<usize, Error>,
    >) {
        let total: usize = total_len(bufs);
        let ghost room = flat(bufs@);
        if self.pos == self.cap && total >= self.buf.len() {
            let r = self.inner.poll_read_vectored(cx, bufs);
            match r {
                Poll::Pending => {},
                Poll::Ready(_) => {
                    self.pos = 0;
                    self.cap = 0;
                },
            }
            return r;
        }
        let ghost mut held: Seq<u8> = Seq::empty();
        let nread: usize = match self.poll_fill_buf(cx) {
            Poll::Pending => {
                assert(old(self).read_through(
                    *old(cx),
                    room,
                    Poll::Pending,
                    *self,
                    Poll::Pending,
                    *self,
                    room,
                    *cx,
                ));
                return Poll::Pending;
            },
            Poll::Ready(Err(e)) => {
                let r = Poll::Ready(Err(e));
                assert(old(self).read_through(
                    *old(cx),
                    room,
                    Poll::Ready(Err(e)),
                    *self,
                    r,
                    *self,
                    room,
                    *cx,
                ));
                return r;
            },
            Poll::Ready(Ok(bytes)) => {
                proof {
                    held = bytes@;
                }
                scatter(bytes, bufs)
            },
        };
        let ghost mid = *self;
        self.consume(nread);
        let r = Poll::Ready(Ok(nread));
        assert(old(self).read_through(
            *old(cx),
            room,
            Poll::Ready(Ok(held)),
            mid,
            r,
            *self,
            flat(bufs@),
            *cx,
        ));
        r
    }
}

impl<R: AsyncReadVectored> AsyncReadVectored for Bytes<R> {
    open spec fn reads_vectored(
        self,
        cx: Context,
        lens: Seq<nat>,
        room: Seq<u8>,
        r: Poll<Result<usize, Error>>,
        next: Self,
        buf: Seq<u8>,
        after: Context,
    ) -> bool {
        self.inner.reads_vectored(cx, lens, room, r, next.inner, buf, after)
    }

    fn poll_read_vectored(&mut self, cx: &mut Context, bufs: &mut Vec<Vec<u8>>) -> (r: Poll<
        Result<usize, Error>,
    >) {
        self.inner.poll_read_vectored(cx, bufs)
    }
}

impl<R1: AsyncReadVectored, R2: AsyncReadVectored> Chain<R1, R2> {
    /// The first gave `raw` and left the buffers `mid`, and if it has come to its end the second
    /// is read. It has come to its end if it gives nothing though there are buffers.
    pub open spec fn read_on_vectored(
        self,
        cx: Context,
        lens: Seq<nat>,
        room: Seq<u8>,
        raw: Poll<Result<usize, Error>>,
        mid: Seq<u8>,
        between: Context,
        r: Poll<Result<usize, Error>>,
        next: Self,
        buf: Seq<u8>,
        after: Context,
    ) -> bool {
        &&& self.first.reads_vectored(cx, lens, room, raw, next.first, mid, between)
        &&& if raw == Poll::Ready(Ok::<usize, Error>(0)) && lens.len() > 0 {
            &&& self.second.reads_vectored(between, lens, mid, r, next.second, buf, after)
            &&& next.done_first
        } else {
            &&& r == raw
            &&& buf == mid
            &&& after == between
            &&& next.second == self.second
            &&& !next.done_first
        }
    }
}

impl<R1: AsyncReadVectored, R2: AsyncReadVectored> AsyncReadVectored for Chain<R1, R2> {
    open spec fn reads_vectored(
        self,
        cx: Context,
        lens: Seq<nat>,
        room: Seq<u8>,
        r: Poll<Result<usize, Error>>,
        next: Self,
        buf: Seq<u8>,
        after: Context,
    ) -> bool {
        if self.done_first {
            &&& self.second.reads_vectored(cx, lens, room, r, next.second, buf, after)
            &&& next.first == self.first
            &&& next.done_first
        } else {
            exists|raw: Poll<Result<usize, Error>>, mid: Seq<u8>, between: Context| #[trigger]
                self.read_on_vectored(cx, lens, room, raw, mid, between, r, next, buf, after)
        }
    }

    fn poll_read_vectored(&mut self, cx: &mut Context, bufs: &mut Vec<Vec<u8>>) -> (r: Poll<
        Result<usize, Error>,
    >) {
        if !self.done_first {
            let raw = self.first.poll_read_vectored(cx, bufs);
            proof {
                lemma_flat_shape(old(bufs)@, bufs@);
                assert(lens(bufs@) =~= lens(old(bufs)@)) by {
                    assert forall|i: int| 0 <= i < bufs@.len() implies lens(bufs@)[i] == lens(
                        old(bufs)@,
                    )[i] by {
                        assert(old(bufs)@[i]@.len() == bufs@[i]@.len());
                    }
                }
            }
            let at_end = match raw {
                Poll::Ready(Ok(n)) => n == 0 && bufs.len() > 0,
                _ => false,
            };
            if !at_end {
                assert(old(self).read_on_vectored(
                    *old(cx),
                    lens(old(bufs)@),
                    flat(old(bufs)@),
                    raw,
                    flat(bufs@),
                    *cx,
                    raw,
                    *self,
                    flat(bufs@),
                    *cx,
                ));
                return raw;
            }
            let ghost first_left = bufs@;
            let ghost mid = flat(bufs@);
            let ghost between = *cx;
            self.done_first = true;
            let r = self.second.poll_read_vectored(cx, bufs);
            proof {
                assert forall|i: int| 0 <= i < old(bufs)@.len() implies (#[trigger] old(bufs)@[i])@.len() == bufs@[i]@.len() by {
                    assert(old(bufs)@[i]@.len() == first_left[i]@.len());
                    assert(first_left[i]@.len() == bufs@[i]@.len());
                }
                assert(old(self).read_on_vectored(
                    *old(cx),
                    lens(old(bufs)@),
                    flat(old(bufs)@),
                    raw,
                    mid,
                    between,
                    r,
                    *self,
                    flat(bufs@),
                    *cx,
                ));
            }
            return r;
        }
        self.second.poll_read_vectored(cx, bufs)
    }
}

/// How long the first buffer is that is not empty.
pub open spec fn first_len(lens: Seq<nat>) -> nat
    decreases lens.len(),
{
    if lens.len() == 0 {
        0
    } else if lens[0] > 0 {
        lens[0]
    } else {
        first_len(lens.skip(1))
    }
}

/// Reading into the first buffer that is not empty can give `r`; the others stay as they are.
pub open spec fn reads_first<R: AsyncRead>(
    reader: R,
    cx: Context,
    lens: Seq<nat>,
    room: Seq<u8>,
    r: Poll<Result<usize, Error>>,
    next: R,
    buf: Seq<u8>,
    after: Context,
) -> bool {
    let n = first_len(lens) as int;
    &&& reader.reads(cx, room.take(n), r, next, buf.take(n), after)
    &&& buf.len() == room.len()
    &&& buf.skip(n) == room.skip(n)
}

/// As long as the first buffers are empty, they add nothing.
proof fn lemma_empty_front(bufs: Seq<Vec<u8>>, k: nat)
    requires
        k <= bufs.len(),
        forall|i: int| 0 <= i < k ==> (#[trigger] bufs[i])@.len() == 0,
    ensures
        flat(bufs.take(k as int)).len() == 0,
        first_len(lens(bufs)) == first_len(lens(bufs).skip(k as int)),
    decreases k,
{
    if k == 0 {
        assert(bufs.take(0) =~= Seq::<Vec<u8>>::empty());
        assert(lens(bufs).skip(0) =~= lens(bufs));
    } else {
        lemma_empty_front(bufs, (k - 1) as nat);
        lemma_flat_take(bufs, (k - 1) as nat);
        let rest = lens(bufs).skip(k - 1);
        assert(bufs[k - 1]@.len() == 0);
        assert(rest[0] == 0);
        assert(rest.skip(1) =~= lens(bufs).skip(k as int));
    }
}

/// Reads into the first buffer that is not empty, for what knows of no more than one.
pub fn read_first<R: AsyncRead>(reader: &mut R, cx: &mut Context, bufs: &mut Vec<Vec<u8>>) -> (r:
    Poll<Result<usize, Error>>)
    requires
        old(reader).wf(),
    ensures
        final(reader).wf(),
        reads_first(
            *old(reader),
            *old(cx),
            lens(old(bufs)@),
            flat(old(bufs)@),
            r,
            *final(reader),
            flat(final(bufs)@),
            *final(cx),
        ),
        continues(*old(cx), *final(cx)),
        same_shape(old(bufs)@, final(bufs)@),
        r matches Poll::Ready(Ok(n)) ==> n <= flat(old(bufs)@).len(),
{
    let ghost before = bufs@;
    let mut i: usize = 0;
    while i < bufs.len() && bufs[i].len() == 0
        invariant
            bufs@ == before,
            i <= bufs@.len(),
            forall|j: int| 0 <= j < i ==> (#[trigger] bufs@[j])@.len() == 0,
        decreases bufs@.len() - i,
    {
        i = i + 1;
    }
    let ghost k = i as int;
    proof {
        lemma_empty_front(before, i as nat);
        lemma_flat_take(before, i as nat);
    }
    if i < bufs.len() {
        proof {
            assert(lens(before).skip(k)[0] == before[k]@.len());
            lemma_flat_take(before, (i + 1) as nat);
        }
        let mut one: Vec<u8> = Vec::new();
        std::mem::swap(&mut one, &mut bufs[i]);
        let ghost was = one@;
        let r = reader.poll_read(cx, one.as_mut_slice());
        let ghost now = one@;
        bufs[i] = one;
        proof {
            let n = was.len() as int;
            assert forall|j: int| 0 <= j < k implies (#[trigger] bufs@[j])@.len() == 0 by {
                assert(before[j]@.len() == 0);
            }
            assert forall|j: int| 0 <= j < before.len() implies (#[trigger] before[j])@.len()
                == bufs@[j]@.len() by {}
            lemma_empty_front(bufs@, i as nat);
            lemma_flat_take(bufs@, i as nat);
            lemma_flat_take(bufs@, (i + 1) as nat);
            lemma_flat_rest(before, bufs@, (i + 1) as nat);
            assert(flat(before.take(k + 1)) =~= was);
            assert(flat(bufs@.take(k + 1)) =~= now);
            assert(flat(before).take(n) =~= was);
            assert(flat(bufs@).take(n) =~= now);
            assert(flat(bufs@).skip(n) =~= flat(before).skip(n));
        }
        r
    } else {
        let mut none: Vec<u8> = Vec::new();
        let r = reader.poll_read(cx, none.as_mut_slice());
        proof {
            assert(before.take(k) =~= before);
            assert(lens(before).skip(k) =~= Seq::<nat>::empty());
            assert(flat(before).take(0) =~= Seq::<u8>::empty());
            assert(none@ =~= Seq::<u8>::empty());
        }
        r
    }
}

impl<R: AsyncRead> AsyncReadVectored for Take<R> {
    /// It is handed the first buffer that is not empty.
    open spec fn reads_vectored(
        self,
        cx: Context,
        lens: Seq<nat>,
        room: Seq<u8>,
        r: Poll<Result<usize, Error>>,
        next: Self,
        buf: Seq<u8>,
        after: Context,
    ) -> bool {
        reads_first(self, cx, lens, room, r, next, buf, after)
    }

    fn poll_read_vectored(&mut self, cx: &mut Context, bufs: &mut Vec<Vec<u8>>) -> (r: Poll<
        Result<usize, Error>,
    >) {
        read_first(self, cx, bufs)
    }
}

impl AsyncReadVectored for Empty {
    /// It is handed the first buffer that is not empty.
    open spec fn reads_vectored(
        self,
        cx: Context,
        lens: Seq<nat>,
        room: Seq<u8>,
        r: Poll<Result<usize, Error>>,
        next: Self,
        buf: Seq<u8>,
        after: Context,
    ) -> bool {
        reads_first(self, cx, lens, room, r, next, buf, after)
    }

    fn poll_read_vectored(&mut self, cx: &mut Context, bufs: &mut Vec<Vec<u8>>) -> (r: Poll<
        Result<usize, Error>,
    >) {
        read_first(self, cx, bufs)
    }
}

impl AsyncReadVectored for Repeat {
    /// It is handed the first buffer that is not empty.
    open spec fn reads_vectored(
        self,
        cx: Context,
        lens: Seq<nat>,
        room: Seq<u8>,
        r: Poll<Result<usize, Error>>,
        next: Self,
        buf: Seq<u8>,
        after: Context,
    ) -> bool {
        reads_first(self, cx, lens, room, r, next, buf, after)
    }

    fn poll_read_vectored(&mut self, cx: &mut Context, bufs: &mut Vec<Vec<u8>>) -> (r: Poll<
        Result<usize, Error>,
    >) {
        read_first(self, cx, bufs)
    }
}

/// Something blocking that can be read into several buffers at once.
pub trait ReadVectored: Read {
    /// Reading into buffers of the lengths `lens` that hold `room` one after the other can give
    /// `r` and leave `next` and `buf` behind.
    spec fn reads_vectored(
        self,
        lens: Seq<nat>,
        room: Seq<u8>,
        r: Result<usize, Error>,
        next: Self,
        buf: Seq<u8>,
    ) -> bool;

    /// Reads some bytes into the buffers, one after the other.
    fn read_vectored(&mut self, bufs: &mut Vec<Vec<u8>>) -> (r: Result<usize, Error>)
        requires
            flat(old(bufs)@).len() <= usize::MAX,
        ensures
            old(self).reads_vectored(
                lens(old(bufs)@),
                flat(old(bufs)@),
                r,
                *final(self),
                flat(final(bufs)@),
            ),
            broken_off(r) ==> final(self).patience() < old(self).patience(),
            same_shape(old(bufs)@, final(bufs)@),
            r matches Ok(n) ==> n <= flat(old(bufs)@).len(),
    ;
}

impl<'a> ReadVectored for SliceReader<'a> {
    /// The buffers are read into as if they were one.
    open spec fn reads_vectored(
        self,
        lens: Seq<nat>,
        room: Seq<u8>,
        r: Result<usize, Error>,
        next: Self,
        buf: Seq<u8>,
    ) -> bool {
        self.reads(room, r, next, buf)
    }

    fn read_vectored(&mut self, bufs: &mut Vec<Vec<u8>>) -> (r: Result<usize, Error>) {
        let total: usize = total_len(bufs);
        let mut all: Vec<u8> = vec![0u8; total];
        let n: usize = match self.read(all.as_mut_slice()) {
            Ok(n) => n,
            Err(e) => return Err(e),
        };
        let read = vstd::slice::slice_subrange(all.as_slice(), 0, n);
        scatter(read, bufs);
        proof {
            if old(self).wf() {
                assert(read@ =~= old(self).rest().take(n as int));
                assert(read@.take(n as int) =~= read@);
            }
        }
        Ok(n)
    }
}

/// After `n` reads that were interrupted, `from` and the buffers `room` have become `to` and
/// `buf`.
pub open spec fn read_vectored_again<T: ReadVectored>(
    from: T,
    lens: Seq<nat>,
    room: Seq<u8>,
    n: nat,
    to: T,
    buf: Seq<u8>,
) -> bool
    decreases n,
{
    if n == 0 {
        to == from && buf == room
    } else {
        exists|mid: T, was: Seq<u8>, e: Error|
            {
                &&& read_vectored_again(from, lens, room, (n - 1) as nat, mid, was)
                &&& #[trigger] mid.reads_vectored(lens, was, Err(e), to, buf)
                &&& e.kind == ErrorKind::Interrupted
            }
    }
}

impl<T: ReadVectored> AssertAsync<T> {
    /// After `n` interruptions the reader is `mid` and the buffers `was`, and then it gives `r`.
    pub open spec fn read_vectored_at_last(
        self,
        lens: Seq<nat>,
        room: Seq<u8>,
        n: nat,
        mid: T,
        was: Seq<u8>,
        r: Poll<Result<usize, Error>>,
        next: Self,
        buf: Seq<u8>,
    ) -> bool {
        &&& read_vectored_again(self.0, lens, room, n, mid, was)
        &&& r matches Poll::Ready(out) && mid.reads_vectored(lens, was, out, next.0, buf)
        &&& !interrupted(r)
    }
}

proof fn lemma_same_lens(a: Seq<Vec<u8>>, b: Seq<Vec<u8>>)
    requires
        same_shape(a, b),
    ensures
        lens(a) == lens(b),
        flat(a).len() == flat(b).len(),
{
    lemma_flat_shape(a, b);
    assert forall|i: int| 0 <= i < a.len() implies lens(a)[i] == lens(b)[i] by {
        assert(a[i]@.len() == b[i]@.len());
    }
    assert(lens(a) =~= lens(b));
}

impl<T: ReadVectored> AsyncReadVectored for AssertAsync<T> {
    open spec fn reads_vectored(
        self,
        cx: Context,
        lens: Seq<nat>,
        room: Seq<u8>,
        r: Poll<Result<usize, Error>>,
        next: Self,
        buf: Seq<u8>,
        after: Context,
    ) -> bool {
        &&& exists|n: nat, mid: T, was: Seq<u8>| #[trigger]
            self.read_vectored_at_last(lens, room, n, mid, was, r, next, buf)
        &&& after == cx
    }

    fn poll_read_vectored(&mut self, cx: &mut Context, bufs: &mut Vec<Vec<u8>>) -> (r: Poll<
        Result<usize, Error>,
    >) {
        let ghost mut n: nat = 0;
        let ghost shape = lens(bufs@);
        let ghost room = flat(bufs@);
        loop
            invariant
                *cx == *old(cx),
                shape == lens(old(bufs)@),
                room == flat(old(bufs)@),
                room.len() <= usize::MAX,
                same_shape(old(bufs)@, bufs@),
                read_vectored_again(old(self).0, shape, room, n, self.0, flat(bufs@)),
            decreases self.0.patience(),
        {
            let ghost mid = self.0;
            let ghost was = bufs@;
            proof {
                lemma_same_lens(old(bufs)@, was);
            }
            let out = self.0.read_vectored(bufs);
            assert forall|i: int| 0 <= i < old(bufs)@.len() implies (#[trigger] old(bufs)@[i])@.len() == bufs@[i]@.len() by {
                assert(was[i]@.len() == bufs@[i]@.len());
            }
            let again = match &out {
                Ok(_) => false,
                Err(err) => err.kind() == ErrorKind::Interrupted,
            };
            if !again {
                let r = Poll::Ready(out);
                assert(old(self).read_vectored_at_last(
                    shape,
                    room,
                    n,
                    mid,
                    flat(was),
                    r,
                    *self,
                    flat(bufs@),
                ));
                return r;
            }
            proof {
                assert(mid.reads_vectored(
                    shape,
                    flat(was),
                    Err(out->Err_0),
                    self.0,
                    flat(bufs@),
                ));
                n = n + 1;
            }
        }
    }
}

/// Reads into several buffers.
#[must_use]
#[derive(Debug)]
pub struct ReadVectoredFuture {}

impl ReadVectoredFuture {
    pub fn poll<R: AsyncReadVectored>(
        &mut self,
        reader: &mut R,
        cx: &mut Context,
        bufs: &mut Vec<Vec<u8>>,
    ) -> (r: Poll<Result<usize, Error>>)
        requires
            old(reader).wf(),
            flat(old(bufs)@).len() <= usize::MAX,
        ensures
            final(reader).wf(),
            old(reader).reads_vectored(
                *old(cx),
                lens(old(bufs)@),
                flat(old(bufs)@),
                r,
                *final(reader),
                flat(final(bufs)@),
                *final(cx),
            ),
            continues(*old(cx), *final(cx)),
            same_shape(old(bufs)@, final(bufs)@),
    {
        reader.poll_read_vectored(cx, bufs)
    }
}

/// The first buffer that is not empty.
pub open spec fn first_full(bufs: Seq<Vec<u8>>) -> Seq<u8>
    decreases bufs.len(),
{
    if bufs.len() == 0 {
        Seq::empty()
    } else if bufs[0]@.len() > 0 {
        bufs[0]@
    } else {
        first_full(bufs.skip(1))
    }
}

proof fn lemma_first_full(bufs: Seq<Vec<u8>>)
    ensures
        first_full(bufs).len() <= flat(bufs).len(),
    decreases bufs.len(),
{
    if bufs.len() > 0 {
        lemma_flat_first(bufs);
        lemma_first_full(bufs.skip(1));
    }
}

proof fn lemma_flat_first(bufs: Seq<Vec<u8>>)
    requires
        bufs.len() > 0,
    ensures
        flat(bufs) == bufs[0]@ + flat(bufs.skip(1)),
    decreases bufs.len(),
{
    if bufs.len() == 1 {
        assert(bufs.drop_last() =~= Seq::<Vec<u8>>::empty());
        assert(bufs.skip(1) =~= Seq::<Vec<u8>>::empty());
        assert(flat(bufs) =~= bufs[0]@ + flat(bufs.skip(1)));
    } else {
        lemma_flat_first(bufs.drop_last());
        assert(bufs.drop_last().skip(1) =~= bufs.skip(1).drop_last());
        assert(flat(bufs) =~= bufs[0]@ + flat(bufs.skip(1)));
    }
}

/// Puts the buffers one after the other.
fn gather(bufs: &Vec<Vec<u8>>) -> (r: Vec<u8>)
    ensures
        r@ == flat(bufs@),
{
    let mut all: Vec<u8> = Vec::new();
    let mut i: usize = 0;
    assert(bufs@.take(0) =~= Seq::<Vec<u8>>::empty());
    while i < bufs.len()
        invariant
            i <= bufs@.len(),
            all@ == flat(bufs@.take(i as int)),
        decreases bufs@.len() - i,
    {
        proof {
            lemma_flat_take(bufs@, i as nat);
        }
        all.extend_from_slice(bufs[i].as_slice());
        assert(all@ =~= flat(bufs@.take(i + 1)));
        i = i + 1;
    }
    assert(bufs@.take(i as int) =~= bufs@);
    all
}

/// Something that can be written from several buffers at once.
pub trait AsyncWriteVectored: AsyncWrite {
    /// Writing the buffers `bufs` in `cx` can give `r` and leave `next` and `after` behind.
    spec fn writes_vectored(
        self,
        cx: Context,
        bufs: Seq<Vec<u8>>,
        r: Poll<Result<usize, Error>>,
        next: Self,
        after: Context,
    ) -> bool;

    /// Writes some bytes from the buffers, one after the other.
    fn poll_write_vectored(&mut self, cx: &mut Context, bufs: &Vec<Vec<u8>>) -> (r: Poll<
        Result<usize, Error>,
    >)
        requires
            old(self).wf(),
        ensures
            final(self).wf(),
            old(self).writes_vectored(*old(cx), bufs@, r, *final(self), *final(cx)),
            continues(*old(cx), *final(cx)),
            r matches Poll::Ready(Ok(n)) ==> n <= flat(bufs@).len(),
            final(self).stamina() == old(self).stamina(),
            interrupted(r) ==> final(self).patience() < old(self).patience(),
    ;
}

/// Writes from the first buffer that is not empty, for what knows of no more than one.
pub fn write_first<W: AsyncWrite>(writer: &mut W, cx: &mut Context, bufs: &Vec<Vec<u8>>) -> (r: Poll<
    Result<usize, Error>,
>)
    requires
        old(writer).wf(),
    ensures
        final(writer).wf(),
        old(writer).writes(*old(cx), first_full(bufs@), r, *final(writer), *final(cx)),
        continues(*old(cx), *final(cx)),
        r matches Poll::Ready(Ok(n)) ==> n <= flat(bufs@).len(),
        final(writer).stamina() == old(writer).stamina(),
        interrupted(r) ==> final(writer).patience() < old(writer).patience(),
{
    let mut i: usize = 0;
    assert(bufs@.skip(0) =~= bufs@);
    while i < bufs.len() && bufs[i].len() == 0
        invariant
            i <= bufs@.len(),
            first_full(bufs@) == first_full(bufs@.skip(i as int)),
        decreases bufs@.len() - i,
    {
        proof {
            let rest = bufs@.skip(i as int);
            assert(rest[0] == bufs@[i as int]);
            assert(rest.skip(1) =~= bufs@.skip(i + 1));
        }
        i = i + 1;
    }
    proof {
        lemma_first_full(bufs@);
    }
    if i < bufs.len() {
        assert(bufs@.skip(i as int)[0] == bufs@[i as int]);
        writer.poll_write(cx, bufs[i].as_slice())
    } else {
        let none: &[u8] = &[];
        assert(none@ =~= first_full(bufs@));
        writer.poll_write(cx, none)
    }
}

impl AsyncWriteVectored for Cursor<Vec<u8>> {
    /// It is handed the first buffer that is not empty.
    open spec fn writes_vectored(
        self,
        cx: Context,
        bufs: Seq<Vec<u8>>,
        r: Poll<Result<usize, Error>>,
        next: Self,
        after: Context,
    ) -> bool {
        self.writes(cx, first_full(bufs), r, next, after)
    }

    fn poll_write_vectored(&mut self, cx: &mut Context, bufs: &Vec<Vec<u8>>) -> (r: Poll<
        Result<usize, Error>,
    >) {
        write_first(self, cx, bufs)
    }
}

impl<'a> AsyncWriteVectored for Cursor<&'a mut Vec<u8>> {
    /// It is handed the first buffer that is not empty.
    open spec fn writes_vectored(
        self,
        cx: Context,
        bufs: Seq<Vec<u8>>,
        r: Poll<Result<usize, Error>>,
        next: Self,
        after: Context,
    ) -> bool {
        self.writes(cx, first_full(bufs), r, next, after)
    }

    fn poll_write_vectored(&mut self, cx: &mut Context, bufs: &Vec<Vec<u8>>) -> (r: Poll<
        Result<usize, Error>,
    >) {
        write_first(self, cx, bufs)
    }
}

impl<'a> AsyncWriteVectored for Cursor<&'a mut [u8]> {
    /// The buffers are written as one.
    open spec fn writes_vectored(
        self,
        cx: Context,
        bufs: Seq<Vec<u8>>,
        r: Poll<Result<usize, Error>>,
        next: Self,
        after: Context,
    ) -> bool {
        self.writes(cx, flat(bufs), r, next, after)
    }

    fn poll_write_vectored(&mut self, cx: &mut Context, bufs: &Vec<Vec<u8>>) -> (r: Poll<
        Result<usize, Error>,
    >) {
        let all = gather(bufs);
        self.poll_write(cx, all.as_slice())
    }
}

impl AsyncWriteVectored for Sink {
    /// It is handed the first buffer that is not empty.
    open spec fn writes_vectored(
        self,
        cx: Context,
        bufs: Seq<Vec<u8>>,
        r: Poll<Result<usize, Error>>,
        next: Self,
        after: Context,
    ) -> bool {
        self.writes(cx, first_full(bufs), r, next, after)
    }

    fn poll_write_vectored(&mut self, cx: &mut Context, bufs: &Vec<Vec<u8>>) -> (r: Poll<
        Result<usize, Error>,
    >) {
        write_first(self, cx, bufs)
    }
}

impl<W: AsyncWrite> AsyncWriteVectored for BufferWriter<W> {
    /// It is handed the first buffer that is not empty.
    open spec fn writes_vectored(
        self,
        cx: Context,
        bufs: Seq<Vec<u8>>,
        r: Poll<Result<usize, Error>>,
        next: Self,
        after: Context,
    ) -> bool {
        self.writes(cx, first_full(bufs), r, next, after)
    }

    fn poll_write_vectored(&mut self, cx: &mut Context, bufs: &Vec<Vec<u8>>) -> (r: Poll<
        Result<usize, Error>,
    >) {
        write_first(self, cx, bufs)
    }
}

/// Something blocking that can be written from several buffers at once.
pub trait WriteVectored: Write {
    /// Writing the buffers `bufs` can give `r` and leave `next` behind.
    spec fn writes_vectored(self, bufs: Seq<Vec<u8>>, r: Result<usize, Error>, next: Self) -> bool;

    /// Writes some bytes from the buffers, one after the other.
    fn write_vectored(&mut self, bufs: &Vec<Vec<u8>>) -> (r: Result<usize, Error>)
        ensures
            old(self).writes_vectored(bufs@, r, *final(self)),
            broken_off(r) ==> final(self).patience() < old(self).patience(),
            r matches Ok(n) ==> n <= flat(bufs@).len(),
    ;
}

impl WriteVectored for Collector {
    open spec fn writes_vectored(self, bufs: Seq<Vec<u8>>, r: Result<usize, Error>, next: Self) -> bool {
        self.writes(flat(bufs), r, next)
    }

    fn write_vectored(&mut self, bufs: &Vec<Vec<u8>>) -> (r: Result<usize, Error>) {
        let all = gather(bufs);
        self.write(all.as_slice())
    }
}

/// After `n` writes that were interrupted, `from` has become `to`.
pub open spec fn write_vectored_again<T: WriteVectored>(
    from: T,
    bufs: Seq<Vec<u8>>,
    n: nat,
    to: T,
) -> bool
    decreases n,
{
    if n == 0 {
        to == from
    } else {
        exists|mid: T, e: Error|
            {
                &&& write_vectored_again(from, bufs, (n - 1) as nat, mid)
                &&& #[trigger] mid.writes_vectored(bufs, Err(e), to)
                &&& e.kind == ErrorKind::Interrupted
            }
    }
}

impl<T: WriteVectored> AssertAsync<T> {
    /// After `n` interruptions the writer is `mid`, and then it gives `r`.
    pub open spec fn written_vectored_at_last(
        self,
        bufs: Seq<Vec<u8>>,
        n: nat,
        mid: T,
        r: Poll<Result<usize, Error>>,
        next: Self,
    ) -> bool {
        &&& write_vectored_again(self.0, bufs, n, mid)
        &&& r matches Poll::Ready(out) && mid.writes_vectored(bufs, out, next.0)
        &&& !interrupted(r)
    }
}

impl<T: WriteVectored> AsyncWriteVectored for AssertAsync<T> {
    open spec fn writes_vectored(
        self,
        cx: Context,
        bufs: Seq<Vec<u8>>,
        r: Poll<Result<usize, Error>>,
        next: Self,
        after: Context,
    ) -> bool {
        &&& exists|n: nat, mid: T| #[trigger]
            self.written_vectored_at_last(bufs, n, mid, r, next)
        &&& after == cx
    }

    fn poll_write_vectored(&mut self, cx: &mut Context, bufs: &Vec<Vec<u8>>) -> (r: Poll<
        Result<usize, Error>,
    >) {
        let ghost mut n: nat = 0;
        loop
            invariant
                *cx == *old(cx),
                write_vectored_again(old(self).0, bufs@, n, self.0),
            decreases self.0.patience(),
        {
            let ghost mid = self.0;
            let out = self.0.write_vectored(bufs);
            let again = match &out {
                Ok(_) => false,
                Err(err) => err.kind() == ErrorKind::Interrupted,
            };
            if !again {
                let r = Poll::Ready(out);
                assert(old(self).written_vectored_at_last(bufs@, n, mid, r, *self));
                return r;
            }
            proof {
                assert(mid.writes_vectored(bufs@, Err(out->Err_0), self.0));
                n = n + 1;
            }
        }
    }
}

/// Writes from several buffers.
#[must_use]
#[derive(Debug)]
pub struct WriteVectoredFuture {}

impl WriteVectoredFuture {
    pub fn poll<W: AsyncWriteVectored>(
        &mut self,
        writer: &mut W,
        cx: &mut Context,
        bufs: &Vec<Vec<u8>>,
    ) -> (r: Poll<Result<usize, Error>>)
        requires
            old(writer).wf(),
        ensures
            final(writer).wf(),
            old(writer).writes_vectored(*old(cx), bufs@, r, *final(writer), *final(cx)),
            continues(*old(cx), *final(cx)),
            r matches Poll::Ready(Ok(n)) ==> n <= flat(bufs@).len(),
            interrupted(r) ==> final(writer).patience() < old(writer).patience(),
    {
        writer.poll_write_vectored(cx, bufs)
    }
}

/// What knows of one buffer only is handed the first one with something in it: the front of all of
/// them, one after the other, and something wherever there is anything.
pub proof fn law_first_full(bufs: Seq<Vec<u8>>)
    ensures
        first_full(bufs).is_prefix_of(flat(bufs)),
        flat(bufs).len() > 0 ==> first_full(bufs).len() > 0,
        first_len(lens(bufs)) == first_full(bufs).len(),
    decreases bufs.len(),
{
    if bufs.len() > 0 {
        lemma_flat_first(bufs);
        law_first_full(bufs.skip(1));
        assert(lens(bufs).skip(1) =~= lens(bufs.skip(1)));
        assert(lens(bufs)[0] == bufs[0]@.len());
        if bufs[0]@.len() > 0 {
            assert(flat(bufs).take(bufs[0]@.len() as int) =~= bufs[0]@);
        } else {
            assert(flat(bufs) =~= flat(bufs.skip(1)));
        }
    } else {
        assert(flat(bufs).take(0) =~= Seq::empty());
    }
}

/// All buffers one after the other are as long as they are together, and each stands behind those
/// before it.
pub proof fn law_flat(bufs: Seq<Vec<u8>>, k: int)
    requires
        0 <= k < bufs.len(),
    ensures
        flat(bufs.take(k)).is_prefix_of(flat(bufs)),
        flat(bufs).subrange(
            flat(bufs.take(k)).len() as int,
            (flat(bufs.take(k)).len() + bufs[k]@.len()) as int,
        ) == bufs[k]@,
        flat(Seq::empty()).len() == 0,
{
    lemma_flat_take(bufs, k as nat);
    lemma_flat_take(bufs, (k + 1) as nat);
    let front = flat(bufs.take(k));
    let longer = flat(bufs.take(k + 1));
    assert(flat(bufs).subrange(front.len() as int, (front.len() + bufs[k]@.len()) as int)
        =~= longer.skip(front.len() as int));
    assert(longer.skip(front.len() as int) =~= bufs[k]@);
}

/// Of two readers in a row the second is read from the moment on when the first gives nothing though
/// there are buffers; what the first says before is handed on.
pub proof fn law_buffers_in_a_row<R1: AsyncReadVectored, R2: AsyncReadVectored>(
    chain: Chain<R1, R2>,
    cx: Context,
    shape: Seq<nat>,
    room: Seq<u8>,
    r: Poll<Result<usize, Error>>,
    next: Chain<R1, R2>,
    buf: Seq<u8>,
    after: Context,
)
    requires
        chain.reads_vectored(cx, shape, room, r, next, buf, after),
    ensures
        chain.done_first ==> next.done_first && next.first == chain.first
            && chain.second.reads_vectored(cx, shape, room, r, next.second, buf, after),
        !next.done_first ==> next.second == chain.second && chain.first.reads_vectored(
            cx,
            shape,
            room,
            r,
            next.first,
            buf,
            after,
        ) && !(r == Poll::Ready(Ok::<usize, Error>(0)) && shape.len() > 0),
        !chain.done_first && next.done_first ==> shape.len() > 0 && exists|
            mid: Seq<u8>,
            between: Context,
        | #[trigger]
            chain.first.reads_vectored(
                cx,
                shape,
                room,
                Poll::Ready(Ok(0)),
                next.first,
                mid,
                between,
            ) && chain.second.reads_vectored(between, shape, mid, r, next.second, buf, after),
{
}

/// What is taken not to block never has anything to wait for here either, and never tells of an
/// interruption.
pub proof fn law_buffers_never_wait<T: ReadVectored, U: WriteVectored>(
    reader: AssertAsync<T>,
    shape: Seq<nat>,
    room: Seq<u8>,
    n: nat,
    mid: T,
    was: Seq<u8>,
    r: Poll<Result<usize, Error>>,
    next: AssertAsync<T>,
    buf: Seq<u8>,
    writer: AssertAsync<U>,
    bufs: Seq<Vec<u8>>,
    m: nat,
    between: U,
    s: Poll<Result<usize, Error>>,
    last: AssertAsync<U>,
)
    requires
        reader.read_vectored_at_last(shape, room, n, mid, was, r, next, buf),
        writer.written_vectored_at_last(bufs, m, between, s, last),
    ensures
        r matches Poll::Ready(out) && mid.reads_vectored(shape, was, out, next.0, buf),
        r matches Poll::Ready(Err(e)) ==> !(e.kind is Interrupted),
        n == 0 ==> mid == reader.0 && was == room,
        s matches Poll::Ready(out) && between.writes_vectored(bufs, out, last.0),
        s matches Poll::Ready(Err(e)) ==> !(e.kind is Interrupted),
        m == 0 ==> between == writer.0,
{
}

} // verus!
