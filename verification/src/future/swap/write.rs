//! Writing all of something, flushing, closing, seeking and copying.

use vstd::prelude::*;
use crate::future::future::continues;
use crate::future::swap::buffer_reader::{BufferReader, DEFAULT_BUFSZ};
use crate::future::swap::buffer_writer::tells_taken;
use crate::future::swap::cursor::{AsBytes, Cursor};
use crate::future::swap::traits::{AsyncBufRead, AsyncRead, AsyncSeek, AsyncWrite, Io};
use crate::io::error::{Error, ErrorKind};
use crate::io::stream::SeekFrom;
use crate::task::{Context, Poll};

verus! {

/// Goes to a position.
#[must_use]
#[derive(Debug)]
pub struct SeekFuture {
    pub pos: SeekFrom,
}

impl SeekFuture {
    pub fn poll<S: AsyncSeek>(&mut self, seeker: &mut S, cx: &mut Context) -> (r: Poll<
        Result<u64, Error>,
    >)
        requires
            old(seeker).wf(),
        ensures
            final(seeker).wf(),
            *final(self) == *old(self),
            old(seeker).seeks(*old(cx), old(self).pos, r, *final(seeker), *final(cx)),
            continues(*old(cx), *final(cx)),
    {
        seeker.poll_seek(cx, self.pos)
    }
}

/// Writes something.
#[must_use]
#[derive(Debug)]
pub struct WriteFuture {}

impl WriteFuture {
    pub fn poll<W: AsyncWrite>(&mut self, writer: &mut W, cx: &mut Context, buf: &[u8]) -> (r: Poll<
        Result<usize, Error>,
    >)
        requires
            old(writer).wf(),
        ensures
            final(writer).wf(),
            old(writer).writes(*old(cx), buf@, r, *final(writer), *final(cx)),
            continues(*old(cx), *final(cx)),
            r matches Poll::Ready(Ok(n)) ==> n <= buf@.len(),
    {
        writer.poll_write(cx, buf)
    }
}

/// Flushes.
#[must_use]
#[derive(Debug)]
pub struct FlushFuture {}

impl FlushFuture {
    pub fn poll<W: AsyncWrite>(&mut self, writer: &mut W, cx: &mut Context) -> (r: Poll<
        Result<(), Error>,
    >)
        requires
            old(writer).wf(),
        ensures
            final(writer).wf(),
            old(writer).flushes(*old(cx), r, *final(writer), *final(cx)),
            continues(*old(cx), *final(cx)),
    {
        writer.poll_flush(cx)
    }
}

/// Closes.
#[must_use]
#[derive(Debug)]
pub struct CloseFuture {}

impl CloseFuture {
    pub fn poll<W: AsyncWrite>(&mut self, writer: &mut W, cx: &mut Context) -> (r: Poll<
        Result<(), Error>,
    >)
        requires
            old(writer).wf(),
        ensures
            final(writer).wf(),
            old(writer).closes(*old(cx), r, *final(writer), *final(cx)),
            continues(*old(cx), *final(cx)),
    {
        writer.poll_close(cx)
    }
}

/// Bytes that are being written, and where to.
pub ghost struct Writing<W> {
    pub writer: W,
    pub cx: Context,
    /// How many bytes were written.
    pub written: nat,
}

/// One write took some more of the bytes `buf`.
pub open spec fn write_step<W: AsyncWrite>(buf: Seq<u8>, a: Writing<W>, b: Writing<W>) -> bool {
    let n = b.written - a.written;
    &&& 0 < n <= usize::MAX
    &&& b.written <= buf.len()
    &&& a.writer.writes(
        a.cx,
        buf.skip(a.written as int),
        Poll::Ready(Ok(n as usize)),
        b.writer,
        b.cx,
    )
}

/// `n` writes led from `a` to `b`.
pub open spec fn write_steps<W: AsyncWrite>(
    buf: Seq<u8>,
    a: Writing<W>,
    n: nat,
    b: Writing<W>,
) -> bool
    decreases n,
{
    if n == 0 {
        b == a
    } else {
        exists|mid: Writing<W>|
            {
                &&& write_steps(buf, a, (n - 1) as nat, mid)
                &&& #[trigger] write_step(buf, mid, b)
            }
    }
}

/// After `n` writes it is at `mid`, and then it ends for now: all is written, or writing gives
/// `r` or takes nothing.
pub open spec fn write_stopped<W: AsyncWrite>(
    buf: Seq<u8>,
    a: Writing<W>,
    n: nat,
    mid: Writing<W>,
    r: Poll<Result<(), Error>>,
    b: Writing<W>,
) -> bool {
    &&& write_steps(buf, a, n, mid)
    &&& b.written == mid.written
    &&& if mid.written == buf.len() {
        r == Poll::Ready(Ok::<(), Error>(())) && b == mid
    } else {
        let rest = buf.skip(mid.written as int);
        match r {
            Poll::Pending => mid.writer.writes(mid.cx, rest, Poll::Pending, b.writer, b.cx),
            Poll::Ready(Err(e)) => {
                ||| mid.writer.writes(mid.cx, rest, Poll::Ready(Err(e)), b.writer, b.cx)
                ||| mid.writer.writes(mid.cx, rest, Poll::Ready(Ok(0)), b.writer, b.cx) && e.says(
                    ErrorKind::WriteZero,
                    ""@,
                )
            },
            Poll::Ready(Ok(_)) => false,
        }
    }
}

/// Writes all of something.
#[must_use]
#[derive(Debug)]
pub struct WriteAllFuture {
    /// How many bytes were written.
    pub written: usize,
}

impl WriteAllFuture {
    /// Asks whether all of `buf` has been written.
    pub fn poll<W: AsyncWrite>(&mut self, writer: &mut W, cx: &mut Context, buf: &[u8]) -> (r: Poll<
        Result<(), Error>,
    >)
        requires
            old(writer).wf(),
            old(self).written <= buf@.len(),
        ensures
            final(writer).wf(),
            continues(*old(cx), *final(cx)),
            old(self).written <= final(self).written <= buf@.len(),
            exists|n: nat, mid: Writing<W>| #[trigger]
                write_stopped(
                    buf@,
                    (Writing {
                        writer: *old(writer),
                        cx: *old(cx),
                        written: old(self).written as nat,
                    }),
                    n,
                    mid,
                    r,
                    (Writing {
                        writer: *final(writer),
                        cx: *final(cx),
                        written: final(self).written as nat,
                    }),
                ),
    {
        let len: usize = buf.len();
        let ghost from = Writing { writer: *writer, cx: *cx, written: self.written as nat };
        let ghost mut n: nat = 0;
        while self.written < len
            invariant
                writer.wf(),
                continues(from.cx, *cx),
                from == (Writing {
                    writer: *old(writer),
                    cx: *old(cx),
                    written: old(self).written as nat,
                }),
                old(self).written <= self.written <= len,
                len == buf@.len(),
                write_steps(
                    buf@,
                    from,
                    n,
                    Writing { writer: *writer, cx: *cx, written: self.written as nat },
                ),
            decreases len - self.written,
        {
            let ghost mid = Writing { writer: *writer, cx: *cx, written: self.written as nat };
            let rest = vstd::slice::slice_subrange(buf, self.written, len);
            assert(rest@ =~= buf@.skip(mid.written as int));
            let last = writer.poll_write(cx, rest);
            let ghost stop = Writing { writer: *writer, cx: *cx, written: self.written as nat };
            match last {
                Poll::Pending => {
                    assert(write_stopped(buf@, from, n, mid, Poll::Pending, stop));
                    return Poll::Pending;
                },
                Poll::Ready(Err(e)) => {
                    let r = Poll::Ready(Err(e));
                    assert(write_stopped(buf@, from, n, mid, r, stop));
                    return r;
                },
                Poll::Ready(Ok(k)) => {
                    if k == 0 {
                        let r = Poll::Ready(Err(Error::of(ErrorKind::WriteZero)));
                        assert(write_stopped(buf@, from, n, mid, r, stop));
                        return r;
                    }
                    self.written = self.written + k;
                    proof {
                        assert(write_step(
                            buf@,
                            mid,
                            Writing { writer: *writer, cx: *cx, written: self.written as nat },
                        ));
                        n = n + 1;
                    }
                },
            }
        }
        let r = Poll::Ready(Ok(()));
        proof {
            let all = Writing { writer: *writer, cx: *cx, written: self.written as nat };
            assert(write_stopped(buf@, from, n, all, r, all));
        }
        r
    }
}

proof fn lemma_write_steps<W: AsyncWrite>(
    taken: spec_fn(W) -> Seq<u8>,
    buf: Seq<u8>,
    a: Writing<W>,
    n: nat,
    b: Writing<W>,
)
    requires
        tells_taken(taken),
        a.written <= buf.len(),
        write_steps(buf, a, n, b),
    ensures
        a.written <= b.written <= buf.len(),
        taken(b.writer) == taken(a.writer) + buf.subrange(a.written as int, b.written as int),
    decreases n,
{
    if n == 0 {
        assert(buf.subrange(a.written as int, b.written as int) =~= Seq::empty());
        assert(taken(a.writer) + Seq::empty() =~= taken(a.writer));
    } else {
        let mid = choose|mid: Writing<W>|
            {
                &&& write_steps(buf, a, (n - 1) as nat, mid)
                &&& #[trigger] write_step(buf, mid, b)
            };
        lemma_write_steps(taken, buf, a, (n - 1) as nat, mid);
        assert(taken(b.writer) =~= taken(a.writer) + buf.subrange(
            a.written as int,
            b.written as int,
        ));
    }
}

/// When writing all of something has succeeded, the writer took all of it, in order. `taken`
/// tells for the writer what it took so far.
pub proof fn law_all_written<W: AsyncWrite>(
    taken: spec_fn(W) -> Seq<u8>,
    buf: Seq<u8>,
    a: Writing<W>,
    n: nat,
    mid: Writing<W>,
    b: Writing<W>,
)
    requires
        tells_taken(taken),
        a.written <= buf.len(),
        write_stopped(buf, a, n, mid, Poll::Ready(Ok(())), b),
    ensures
        taken(b.writer) == taken(a.writer) + buf.skip(a.written as int),
{
    lemma_write_steps(taken, buf, a, n, mid);
    assert(buf.subrange(a.written as int, buf.len() as int) =~= buf.skip(a.written as int));
}

/// Something that is being copied.
pub ghost struct Copying<R, W> {
    pub reader: R,
    pub writer: W,
    pub cx: Context,
    pub amt: u64,
}

/// The buffer of the reader showed `bytes`, of which the writer took `i`.
pub open spec fn copied<R: AsyncBufRead, W: AsyncWrite>(
    a: Copying<R, W>,
    bytes: Seq<u8>,
    mid: R,
    between: Context,
    i: usize,
    b: Copying<R, W>,
) -> bool {
    &&& a.reader.fills(a.cx, Poll::Ready(Ok(bytes)), mid, between)
    &&& bytes.len() > 0
    &&& a.writer.writes(between, bytes, Poll::Ready(Ok(i)), b.writer, b.cx)
    &&& 0 < i <= bytes.len()
    &&& mid.consumes(i as nat, b.reader)
    &&& b.amt == a.amt.wrapping_add(i as u64)
}

/// One round led from `a` to `b`.
pub open spec fn copy_step<R: AsyncBufRead, W: AsyncWrite>(
    a: Copying<R, W>,
    b: Copying<R, W>,
) -> bool {
    exists|bytes: Seq<u8>, mid: R, between: Context, i: usize| #[trigger]
        copied(a, bytes, mid, between, i, b)
}

/// `n` rounds led from `a` to `b`.
pub open spec fn copy_steps<R: AsyncBufRead, W: AsyncWrite>(
    a: Copying<R, W>,
    n: nat,
    b: Copying<R, W>,
) -> bool
    decreases n,
{
    if n == 0 {
        b == a
    } else {
        exists|mid: Copying<R, W>|
            {
                &&& copy_steps(a, (n - 1) as nat, mid)
                &&& #[trigger] copy_step(mid, b)
            }
    }
}

/// No more than `limit` rounds follow each other.
pub open spec fn copies_within<R: AsyncBufRead, W: AsyncWrite>(
    a: Copying<R, W>,
    limit: nat,
) -> bool {
    forall|n: nat, b: Copying<R, W>| #[trigger] copy_steps(a, n, b) ==> n <= limit
}

/// Copying comes to an end or to a pause: bytes do not come for ever, or they do and the writer does
/// not take them for ever.
pub open spec fn copying_pauses<R: AsyncBufRead, W: AsyncWrite>(a: Copying<R, W>) -> bool {
    ||| !a.reader.endless()
    ||| exists|limit: nat| #[trigger] copies_within(a, limit)
}

/// At `a` the buffer of the reader shows `seen`, and the copying ends for now.
pub open spec fn copy_stop<R: AsyncBufRead, W: AsyncWrite>(
    a: Copying<R, W>,
    seen: Poll<Result<Seq<u8>, Error>>,
    between: Context,
    r: Poll<Result<u64, Error>>,
    b: Copying<R, W>,
) -> bool {
    &&& a.reader.fills(a.cx, seen, b.reader, between)
    &&& b.amt == a.amt
    &&& match seen {
        Poll::Pending => r is Pending && b.writer == a.writer && b.cx == between,
        Poll::Ready(Err(e)) => {
            &&& r == Poll::Ready(Err::<u64, Error>(e))
            &&& b.writer == a.writer
            &&& b.cx == between
        },
        Poll::Ready(Ok(bytes)) => if bytes.len() == 0 {
            // All is copied.
            match r {
                Poll::Pending => a.writer.flushes(between, Poll::Pending, b.writer, b.cx),
                Poll::Ready(Err(e)) => a.writer.flushes(
                    between,
                    Poll::Ready(Err(e)),
                    b.writer,
                    b.cx,
                ),
                Poll::Ready(Ok(n)) => {
                    &&& a.writer.flushes(between, Poll::Ready(Ok(())), b.writer, b.cx)
                    &&& n == a.amt
                },
            }
        } else {
            match r {
                Poll::Pending => a.writer.writes(
                    between,
                    bytes,
                    Poll::Pending,
                    b.writer,
                    b.cx,
                ),
                Poll::Ready(Err(e)) => {
                    ||| a.writer.writes(between, bytes, Poll::Ready(Err(e)), b.writer, b.cx)
                    ||| a.writer.writes(between, bytes, Poll::Ready(Ok(0)), b.writer, b.cx)
                        && e.says(ErrorKind::WriteZero, ""@)
                },
                Poll::Ready(Ok(_)) => false,
            }
        },
    }
}

/// After `n` rounds it is at `mid`, where the buffer of the reader shows `seen`, and that ends
/// it for now.
pub open spec fn copy_stopped<R: AsyncBufRead, W: AsyncWrite>(
    a: Copying<R, W>,
    n: nat,
    mid: Copying<R, W>,
    seen: Poll<Result<Seq<u8>, Error>>,
    between: Context,
    r: Poll<Result<u64, Error>>,
    b: Copying<R, W>,
) -> bool {
    copy_steps(a, n, mid) && copy_stop(mid, seen, between, r, b)
}

/// Copies what is read to where it is written.
#[must_use]
pub struct CopyFuture<R, W> {
    pub reader: R,
    pub writer: W,
    /// How many bytes were copied.
    pub amt: u64,
}

/// Copies all of `reader`, through a buffer, to `writer`.
pub fn copy<R: AsyncRead, W: AsyncWrite>(reader: R, writer: W) -> (r: CopyFuture<
    BufferReader<R>,
    W,
>)
    requires
        reader.wf(),
    ensures
        r.reader.wf(),
        r.reader.inner == reader,
        r.reader.held() == Seq::<u8>::empty(),
        r.reader.buf@.len() == DEFAULT_BUFSZ,
        r.writer == writer,
        r.amt == 0,
{
    CopyFuture { reader: BufferReader::new(reader), writer, amt: 0 }
}

impl<R: AsyncBufRead, W: AsyncWrite> CopyFuture<R, W> {
    pub open spec fn at(self, cx: Context) -> Copying<R, W> {
        Copying { reader: self.reader, writer: self.writer, cx, amt: self.amt }
    }

    /// Asks whether all was copied, and how much.
    pub fn poll(&mut self, cx: &mut Context) -> (r: Poll<Result<u64, Error>>)
        requires
            old(self).reader.wf(),
            old(self).writer.wf(),
            copying_pauses(old(self).at(*old(cx))),
        ensures
            final(self).reader.wf(),
            final(self).reader.endless() == old(self).reader.endless(),
            final(self).writer.wf(),
            continues(*old(cx), *final(cx)),
            exists|
                n: nat,
                mid: Copying<R, W>,
                seen: Poll<Result<Seq<u8>, Error>>,
                between: Context,
            | #[trigger]
                copy_stopped(
                    old(self).at(*old(cx)),
                    n,
                    mid,
                    seen,
                    between,
                    r,
                    final(self).at(*final(cx)),
                ),
    {
        let ghost from = self.at(*cx);
        let ghost mut n: nat = 0;
        let ghost limit = choose|limit: nat| #[trigger] copies_within(from, limit);
        loop
            invariant
                self.reader.wf(),
                self.reader.endless() == from.reader.endless(),
                from.reader.endless() ==> copies_within(from, limit),
                self.writer.wf(),
                continues(*old(cx), *cx),
                from == old(self).at(*old(cx)),
                copy_steps(from, n, self.at(*cx)),
            decreases
                    (if self.reader.endless() {
                        (limit - n) as nat
                    } else {
                        self.reader.pace()
                    }),
        {
            let ghost mid = self.at(*cx);
            let ghost mut bytes: Seq<u8> = Seq::empty();
            let ghost mut between = *cx;
            let i: usize = match self.reader.poll_fill_buf(cx) {
                Poll::Pending => {
                    assert(copy_stopped(
                        from,
                        n,
                        mid,
                        Poll::Pending,
                        *cx,
                        Poll::Pending,
                        self.at(*cx),
                    ));
                    return Poll::Pending;
                },
                Poll::Ready(Err(e)) => {
                    let r = Poll::Ready(Err(e));
                    assert(copy_stopped(
                        from,
                        n,
                        mid,
                        Poll::Ready(Err(e)),
                        *cx,
                        r,
                        self.at(*cx),
                    ));
                    return r;
                },
                Poll::Ready(Ok(buffer)) => {
                    proof {
                        bytes = buffer@;
                        between = *cx;
                    }
                    if buffer.len() == 0 {
                        let ghost seen: Poll<Result<Seq<u8>, Error>> = Poll::Ready(Ok(bytes));
                        match self.writer.poll_flush(cx) {
                            Poll::Pending => {
                                assert(copy_stopped(
                                    from,
                                    n,
                                    mid,
                                    seen,
                                    between,
                                    Poll::Pending,
                                    self.at(*cx),
                                ));
                                return Poll::Pending;
                            },
                            Poll::Ready(Err(e)) => {
                                let r = Poll::Ready(Err(e));
                                assert(copy_stopped(
                                    from,
                                    n,
                                    mid,
                                    seen,
                                    between,
                                    r,
                                    self.at(*cx),
                                ));
                                return r;
                            },
                            Poll::Ready(Ok(done)) => {
                                let r = Poll::Ready(Ok(self.amt));
                                assert(done == ());
                                assert(copy_stopped(
                                    from,
                                    n,
                                    mid,
                                    seen,
                                    between,
                                    r,
                                    self.at(*cx),
                                ));
                                return r;
                            },
                        }
                    }
                    match self.writer.poll_write(cx, buffer) {
                        Poll::Pending => {
                            assert(copy_stopped(
                                from,
                                n,
                                mid,
                                Poll::Ready(Ok(bytes)),
                                between,
                                Poll::Pending,
                                self.at(*cx),
                            ));
                            return Poll::Pending;
                        },
                        Poll::Ready(Err(e)) => {
                            let r = Poll::Ready(Err(e));
                            assert(copy_stopped(
                                from,
                                n,
                                mid,
                                Poll::Ready(Ok(bytes)),
                                between,
                                r,
                                self.at(*cx),
                            ));
                            return r;
                        },
                        Poll::Ready(Ok(i)) => i,
                    }
                },
            };
            if i == 0 {
                let r = Poll::Ready(Err(Error::of(ErrorKind::WriteZero)));
                assert(copy_stopped(
                    from,
                    n,
                    mid,
                    Poll::Ready(Ok(bytes)),
                    between,
                    r,
                    self.at(*cx),
                ));
                return r;
            }
            self.amt = self.amt.wrapping_add(i as u64);
            let ghost full = self.reader;
            self.reader.consume(i);
            proof {
                assert(copied(mid, bytes, full, between, i, self.at(*cx)));
                assert(copy_step(mid, self.at(*cx)));
                n = n + 1;
                assert(copy_steps(from, n, self.at(*cx)));
            }
        }
    }
}

/// `given` tells for a reader with a buffer what was consumed of it so far.
pub open spec fn tells_given<R: AsyncBufRead>(given: spec_fn(R) -> Seq<u8>) -> bool {
    forall|
        a: R,
        cx: Context,
        bytes: Seq<u8>,
        b: R,
        after: Context,
        n: nat,
        c: R,
    | #[trigger]
        a.fills(cx, Poll::Ready(Ok(bytes)), b, after) && #[trigger] b.consumes(n, c) && n
            <= bytes.len() ==> given(c) == given(a) + bytes.take(n as int)
}

/// Whatever is taken from the reader goes to the writer, and nothing else: after any number of
/// rounds both have moved on by the same bytes, and the count by their number. `given` and `taken`
/// tell for the reader and the writer what they gave and took so far.
pub proof fn law_copied<R: AsyncBufRead, W: AsyncWrite>(
    given: spec_fn(R) -> Seq<u8>,
    taken: spec_fn(W) -> Seq<u8>,
    a: Copying<R, W>,
    n: nat,
    b: Copying<R, W>,
) -> (bytes: Seq<u8>)
    requires
        tells_given(given),
        tells_taken(taken),
        copy_steps(a, n, b),
    ensures
        given(b.reader) == given(a.reader) + bytes,
        taken(b.writer) == taken(a.writer) + bytes,
        b.amt == (a.amt + bytes.len()) % 0x1_0000_0000_0000_0000,
    decreases n,
{
    if n == 0 {
        assert(given(a.reader) + Seq::empty() =~= given(a.reader));
        assert(taken(a.writer) + Seq::empty() =~= taken(a.writer));
        Seq::empty()
    } else {
        let mid = choose|mid: Copying<R, W>|
            {
                &&& copy_steps(a, (n - 1) as nat, mid)
                &&& #[trigger] copy_step(mid, b)
            };
        let before = law_copied(given, taken, a, (n - 1) as nat, mid);
        let (bytes, full, between, i) = choose|
            bytes: Seq<u8>,
            full: R,
            between: Context,
            i: usize,
        | #[trigger]
            copied(mid, bytes, full, between, i, b);
        let more = bytes.take(i as int);
        assert(mid.reader.fills(mid.cx, Poll::Ready(Ok(bytes)), full, between));
        assert(full.consumes(i as nat, b.reader));
        assert(given(b.reader) =~= given(a.reader) + (before + more));
        assert(taken(b.writer) =~= taken(a.writer) + (before + more));
        vstd::arithmetic::div_mod::lemma_add_mod_noop_right(
            i as int,
            a.amt + before.len(),
            0x1_0000_0000_0000_0000,
        );
        before + more
    }
}

proof fn lemma_copy_steps_fill<'a, R: AsyncBufRead>(
    a: Copying<R, Cursor<&'a mut [u8]>>,
    n: nat,
    b: Copying<R, Cursor<&'a mut [u8]>>,
)
    requires
        copy_steps(a, n, b),
    ensures
        n + b.writer.rest().len() <= a.writer.rest().len(),
    decreases n,
{
    if n > 0 {
        let mid = choose|mid: Copying<R, Cursor<&'a mut [u8]>>|
            {
                &&& copy_steps(a, (n - 1) as nat, mid)
                &&& #[trigger] copy_step(mid, b)
            };
        lemma_copy_steps_fill(a, (n - 1) as nat, mid);
        let (bytes, full, between, i) = choose|
            bytes: Seq<u8>,
            full: R,
            between: Context,
            i: usize,
        | #[trigger]
            copied(mid, bytes, full, between, i, b);
        assert(mid.writer.writes(between, bytes, Poll::Ready(Ok(i)), b.writer, b.cx));
    }
}

/// Whatever is copied to where there is only so much room comes to an end, even if bytes come for
/// ever.
pub proof fn law_copying_fills_up<'a, R: AsyncBufRead>(a: Copying<R, Cursor<&'a mut [u8]>>)
    ensures
        copying_pauses(a),
{
    assert(copies_within(a, a.writer.rest().len())) by {
        assert forall|n: nat, b: Copying<R, Cursor<&'a mut [u8]>>| #[trigger]
            copy_steps(a, n, b) implies n <= a.writer.rest().len() by {
            lemma_copy_steps_fill(a, n, b);
        }
    }
}

/// However writing all of something breaks off, the writer took as much of it as is counted, so that
/// it can go on from there; it succeeds only with all of it, fails with the error of the writer or
/// where that takes nothing, and waits as long as the writer does.
pub proof fn law_written_so_far<W: AsyncWrite>(
    taken: spec_fn(W) -> Seq<u8>,
    buf: Seq<u8>,
    a: Writing<W>,
    n: nat,
    mid: Writing<W>,
    r: Poll<Result<(), Error>>,
    b: Writing<W>,
)
    requires
        tells_taken(taken),
        a.written <= buf.len(),
        write_stopped(buf, a, n, mid, r, b),
    ensures
        a.written <= b.written <= buf.len(),
        taken(b.writer) == taken(a.writer) + buf.subrange(a.written as int, b.written as int),
        r == Poll::Ready(Ok::<(), Error>(())) <==> b.written == buf.len(),
        r is Pending ==> mid.writer.writes(
            mid.cx,
            buf.skip(b.written as int),
            Poll::Pending,
            b.writer,
            b.cx,
        ),
        r matches Poll::Ready(Err(e)) ==> mid.writer.writes(
            mid.cx,
            buf.skip(b.written as int),
            Poll::Ready(Err(e)),
            b.writer,
            b.cx,
        ) || (mid.writer.writes(
            mid.cx,
            buf.skip(b.written as int),
            Poll::Ready(Ok(0)),
            b.writer,
            b.cx,
        ) && e.kind is WriteZero),
{
    lemma_write_steps(taken, buf, a, n, mid);
    if mid.written < buf.len() {
        let rest = buf.skip(mid.written as int);
        assert(rest.take(0) =~= Seq::empty());
        assert(taken(mid.writer) + Seq::<u8>::empty() =~= taken(mid.writer));
        assert(taken(b.writer) == taken(mid.writer));
    }
}

/// Copying succeeds only once there is nothing more to read and what was written has been flushed,
/// and says how much that was; it fails with the error of the reader or of the writer, or where the
/// writer takes nothing; and it waits as long as one of them does.
pub proof fn law_copying_ends<R: AsyncBufRead, W: AsyncWrite>(
    a: Copying<R, W>,
    seen: Poll<Result<Seq<u8>, Error>>,
    between: Context,
    r: Poll<Result<u64, Error>>,
    b: Copying<R, W>,
)
    requires
        copy_stop(a, seen, between, r, b),
    ensures
        a.reader.fills(a.cx, seen, b.reader, between),
        b.amt == a.amt,
        r matches Poll::Ready(Ok(n)) ==> n == a.amt && (seen matches Poll::Ready(Ok(bytes))
            && bytes.len() == 0) && a.writer.flushes(
            between,
            Poll::Ready(Ok(())),
            b.writer,
            b.cx,
        ),
        seen matches Poll::Ready(Err(e)) ==> r == Poll::Ready(Err::<u64, Error>(e)) && b.writer
            == a.writer,
        seen is Pending ==> r is Pending && b.writer == a.writer,
        seen matches Poll::Ready(Ok(bytes)) ==> bytes.len() > 0 ==> {
            &&& r is Pending ==> a.writer.writes(between, bytes, Poll::Pending, b.writer, b.cx)
            &&& r matches Poll::Ready(Err(e)) ==> a.writer.writes(
                between,
                bytes,
                Poll::Ready(Err(e)),
                b.writer,
                b.cx,
            ) || (a.writer.writes(between, bytes, Poll::Ready(Ok(0)), b.writer, b.cx) && e.kind
                is WriteZero)
        },
        seen matches Poll::Ready(Ok(bytes)) ==> bytes.len() == 0 ==> {
            &&& r is Pending ==> a.writer.flushes(between, Poll::Pending, b.writer, b.cx)
            &&& r matches Poll::Ready(Err(e)) ==> a.writer.flushes(
                between,
                Poll::Ready(Err(e)),
                b.writer,
                b.cx,
            )
        },
{
}

} // verus!
