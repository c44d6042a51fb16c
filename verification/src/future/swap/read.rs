//! Reading to the end, exactly so much, at most so much, and one after the other.

use vstd::prelude::*;
use crate::future::future::continues;
use crate::future::swap::lines::string_from_utf8;
use crate::future::swap::traits::AsyncRead;
use crate::io::error::{Error, ErrorKind};
use crate::task::{Context, Poll};
use crate::utils::colo::vec_capacity;

verus! {

/// Reads something.
#[must_use]
#[derive(Debug)]
pub struct ReadFuture {}

impl ReadFuture {
    pub fn poll<R: AsyncRead>(&mut self, reader: &mut R, cx: &mut Context, buf: &mut [u8]) -> (r:
        Poll<Result<usize, Error>>)
        requires
            old(reader).wf(),
        ensures
            final(reader).wf(),
            old(reader).reads(*old(cx), old(buf)@, r, *final(reader), final(buf)@, *final(cx)),
            continues(*old(cx), *final(cx)),
            final(buf)@.len() == old(buf)@.len(),
            r matches Poll::Ready(Ok(n)) ==> n <= old(buf)@.len(),
    {
        reader.poll_read(cx, buf)
    }
}

/// The bytes `got`, which are some, were read at once.
pub open spec fn took<R: AsyncRead>(
    from: R,
    cx: Context,
    to: R,
    after: Context,
    got: Seq<u8>,
) -> bool {
    &&& 0 < got.len() <= usize::MAX
    &&& exists|room: Seq<u8>, buf: Seq<u8>|
        {
            &&& #[trigger] from.reads(
                cx,
                room,
                Poll::Ready(Ok(got.len() as usize)),
                to,
                buf,
                after,
            )
            &&& room.len() > 0
            &&& got == buf.take(got.len() as int)
        }
}

/// The bytes `got` came with `n` reads.
pub open spec fn taking<R: AsyncRead>(
    from: R,
    cx: Context,
    n: nat,
    to: R,
    after: Context,
    got: Seq<u8>,
) -> bool
    decreases n,
{
    if n == 0 {
        to == from && after == cx && got == Seq::<u8>::empty()
    } else {
        exists|mid: R, between: Context, last: Seq<u8>|
            {
                let before = got.len() - last.len();
                &&& 0 <= before
                &&& taking(from, cx, (n - 1) as nat, mid, between, got.take(before))
                &&& #[trigger] took(mid, between, to, after, last)
                &&& got.skip(before) == last
            }
    }
}

/// No more than `limit` reads follow each other.
pub open spec fn takes_within<R: AsyncRead>(reader: R, cx: Context, limit: nat) -> bool {
    forall|n: nat, to: R, after: Context, got: Seq<u8>| #[trigger]
        taking(reader, cx, n, to, after, got) ==> n <= limit
}

/// Reading comes to an end or to a pause, or fails.
pub open spec fn pauses<R: AsyncRead>(reader: R, cx: Context) -> bool {
    ||| !reader.endless()
    ||| exists|limit: nat| #[trigger] takes_within(reader, cx, limit)
}

/// After `n` reads that gave `got`, reading gives `last`, and that ends it for now.
pub open spec fn took_last<R: AsyncRead>(
    from: R,
    cx: Context,
    n: nat,
    mid: R,
    between: Context,
    got: Seq<u8>,
    room: Seq<u8>,
    last: Poll<Result<usize, Error>>,
    to: R,
    buf: Seq<u8>,
    after: Context,
) -> bool {
    &&& taking(from, cx, n, mid, between, got)
    &&& mid.reads(between, room, last, to, buf, after)
    &&& room.len() > 0
    &&& last matches Poll::Ready(Ok(n)) ==> n == 0
}

/// Reading to the end appends `got`. It has come to its end if `last` says that there was nothing
/// to read.
pub open spec fn reads_on<R: AsyncRead>(
    from: R,
    cx: Context,
    got: Seq<u8>,
    last: Poll<Result<usize, Error>>,
    to: R,
    after: Context,
) -> bool {
    exists|n: nat, mid: R, between: Context, room: Seq<u8>, buf: Seq<u8>| #[trigger]
        took_last(from, cx, n, mid, between, got, room, last, to, buf, after)
}

/// What reading to the end gives, if the last read gave `last` and then `total` bytes had been
/// read.
pub open spec fn outcome(last: Poll<Result<usize, Error>>, total: usize) -> Poll<
    Result<usize, Error>,
> {
    match last {
        Poll::Ready(Ok(_)) => Poll::Ready(Ok(total)),
        Poll::Ready(Err(e)) => Poll::Ready(Err(e)),
        Poll::Pending => Poll::Pending,
    }
}

/// What the last read must have given for reading to the end to give `r`.
pub open spec fn cause(r: Poll<Result<usize, Error>>) -> Poll<Result<usize, Error>> {
    outcome(r, 0)
}

/// Makes `buf` longer than `len`, if it is not.
fn make_room(buf: &mut Vec<u8>, len: usize)
    requires
        len <= old(buf)@.len(),
    ensures
        len < final(buf)@.len(),
        final(buf)@.take(len as int) == old(buf)@.take(len as int),
{
    if len == buf.len() {
        buf.reserve(32);
        let mut i: usize = 0;
        while i < 32
            invariant
                i <= 32,
                buf@.len() == len + i,
                len <= old(buf)@.len(),
                buf@.take(len as int) == old(buf)@.take(len as int),
            decreases 32 - i,
        {
            buf.push(0);
            assert(buf@.take(len as int) =~= old(buf)@.take(len as int));
            i = i + 1;
        }
        let capacity: usize = vec_capacity(buf);
        let ghost short = buf@;
        buf.resize(capacity, 0);
        assert forall|j: int| 0 <= j < len implies buf@[j] == short[j] by {
            assert(buf@.subrange(0, short.len() as int)[j] == buf@[j]);
        }
        assert(buf@.take(len as int) =~= short.take(len as int));
    }
}

/// Reads to the end and appends what was read to `buf`, of which `start_len` bytes were there
/// before.
fn read_to_end_internal<R: AsyncRead>(
    rd: &mut R,
    cx: &mut Context,
    buf: &mut Vec<u8>,
    start_len: usize,
) -> (r: Poll<Result<usize, Error>>)
    requires
        old(rd).wf(),
        pauses(*old(rd), *old(cx)),
        start_len <= old(buf)@.len(),
    ensures
        final(rd).wf(),
        final(rd).endless() == old(rd).endless(),
        continues(*old(cx), *final(cx)),
        old(buf)@.is_prefix_of(final(buf)@),
        reads_on(
            *old(rd),
            *old(cx),
            final(buf)@.skip(old(buf)@.len() as int),
            cause(r),
            *final(rd),
            *final(cx),
        ),
        r == outcome(cause(r), (final(buf)@.len() - start_len) as usize),
{
    let mut len: usize = buf.len();
    let ghost before = buf@;
    let ghost mut n: nat = 0;
    let ghost mut got: Seq<u8> = Seq::empty();
    let ghost limit = choose|limit: nat| #[trigger] takes_within(*rd, *cx, limit);
    assert(buf@.take(len as int) =~= before + got);
    loop
        invariant
            rd.wf(),
            rd.endless() == old(rd).endless(),
            rd.endless() ==> takes_within(*old(rd), *old(cx), limit),
            continues(*old(cx), *cx),
            taking(*old(rd), *old(cx), n, *rd, *cx, got),
            len <= buf@.len(),
            len == before.len() + got.len(),
            buf@.take(len as int) == before + got,
            before == old(buf)@,
            start_len <= before.len(),
        decreases
                (if rd.endless() {
                    (limit - n) as nat
                } else {
                    rd.pace()
                }),
    {
        make_room(buf, len);
        let ghost mid = *rd;
        let ghost between = *cx;
        let (_, rest) = buf.as_mut_slice().split_at_mut(len);
        let ghost room = rest@;
        let last = rd.poll_read(cx, rest);
        let ghost filled = rest@;
        assert(buf@.skip(len as int) =~= filled);
        assert(buf@.take(len as int) =~= before + got);
        assert(mid.reads(between, room, last, *rd, filled, *cx));
        match last {
            Poll::Ready(Ok(k)) => {
                if k == 0 {
                    buf.truncate(len);
                    proof {
                        assert(buf@ =~= before + got);
                        assert(buf@.skip(before.len() as int) =~= got);
                        assert(took_last(
                            *old(rd),
                            *old(cx),
                            n,
                            mid,
                            between,
                            got,
                            room,
                            Poll::Ready(Ok(0)),
                            *rd,
                            filled,
                            *cx,
                        ));
                    }
                    return Poll::Ready(Ok(len - start_len));
                }
                proof {
                    let more = filled.take(k as int);
                    assert(buf.len() == buf@.len());
                    assert(more.len() as usize == k);
                    assert(mid.reads(
                        between,
                        room,
                        Poll::Ready(Ok(more.len() as usize)),
                        *rd,
                        filled,
                        *cx,
                    ));
                    assert(took(mid, between, *rd, *cx, more));
                    assert((got + more).take(got.len() as int) =~= got);
                    assert((got + more).skip(got.len() as int) =~= more);
                    assert(buf@.take(len + k) =~= before + (got + more));
                    got = got + more;
                    n = n + 1;
                    assert(taking(*old(rd), *old(cx), n, *rd, *cx, got));
                }
                len = len + k;
            },
            Poll::Ready(Err(e)) => {
                buf.truncate(len);
                proof {
                    assert(buf@ =~= before + got);
                    assert(buf@.skip(before.len() as int) =~= got);
                    assert(took_last(
                        *old(rd),
                        *old(cx),
                        n,
                        mid,
                        between,
                        got,
                        room,
                        Poll::Ready(Err(e)),
                        *rd,
                        filled,
                        *cx,
                    ));
                }
                return Poll::Ready(Err(e));
            },
            Poll::Pending => {
                buf.truncate(len);
                proof {
                    assert(buf@ =~= before + got);
                    assert(buf@.skip(before.len() as int) =~= got);
                    assert(took_last(
                        *old(rd),
                        *old(cx),
                        n,
                        mid,
                        between,
                        got,
                        room,
                        Poll::Pending,
                        *rd,
                        filled,
                        *cx,
                    ));
                }
                return Poll::Pending;
            },
        }
    }
}

/// Reads to the end.
#[must_use]
#[derive(Debug)]
pub struct ReadToEndFuture {
    /// How long the buffer was before.
    pub start_len: usize,
}

impl ReadToEndFuture {
    /// Asks whether the end was reached, and how many bytes were read. They are appended to
    /// `buf`.
    pub fn poll<R: AsyncRead>(&mut self, reader: &mut R, cx: &mut Context, buf: &mut Vec<u8>) -> (r:
        Poll<Result<usize, Error>>)
        requires
            old(reader).wf(),
            pauses(*old(reader), *old(cx)),
            old(self).start_len <= old(buf)@.len(),
        ensures
            final(reader).wf(),
            final(reader).endless() == old(reader).endless(),
            final(self).start_len == old(self).start_len,
            continues(*old(cx), *final(cx)),
            old(buf)@.is_prefix_of(final(buf)@),
            reads_on(
                *old(reader),
                *old(cx),
                final(buf)@.skip(old(buf)@.len() as int),
                cause(r),
                *final(reader),
                *final(cx),
            ),
            r == outcome(cause(r), (final(buf)@.len() - old(self).start_len) as usize),
    {
        read_to_end_internal(reader, cx, buf, self.start_len)
    }
}

/// What comes of reading a text to its end, if reading the bytes gave `raw` and all of them are
/// `bytes`. `text` and `after` are the text before and afterwards, `left` the bytes that are
/// kept.
pub open spec fn text_read(
    raw: Poll<Result<usize, Error>>,
    bytes: Seq<u8>,
    text: Seq<char>,
    r: Poll<Result<usize, Error>>,
    left: Seq<u8>,
    after: Seq<char>,
) -> bool {
    match raw {
        Poll::Pending => r is Pending && left == bytes && after == text,
        Poll::Ready(ret) => {
            &&& left == Seq::<u8>::empty()
            &&& if vstd::utf8::valid_utf8(bytes) {
                r == raw && after == vstd::utf8::decode_utf8(bytes)
            } else {
                &&& after == text
                &&& r matches Poll::Ready(Err(e)) && (if ret is Err {
                    e == ret->Err_0
                } else {
                    e.says(ErrorKind::InvalidData, "stream did not contain valid UTF-8"@)
                })
            }
        },
    }
}

/// Reads a text to its end.
#[must_use]
#[derive(Debug)]
pub struct ReadToStringFuture {
    /// What was read so far.
    pub bytes: Vec<u8>,
    pub start_len: usize,
}

impl ReadToStringFuture {
    /// Reading to the end appended `got` and gave `raw`, and that is what comes of it.
    pub open spec fn stepped<R: AsyncRead>(
        self,
        reader: R,
        cx: Context,
        text: Seq<char>,
        got: Seq<u8>,
        raw: Poll<Result<usize, Error>>,
        r: Poll<Result<usize, Error>>,
        next: Self,
        reader_after: R,
        after: Context,
        text_after: Seq<char>,
    ) -> bool {
        let bytes = self.bytes@ + got;
        &&& reads_on(reader, cx, got, cause(raw), reader_after, after)
        &&& raw == outcome(cause(raw), (bytes.len() - self.start_len) as usize)
        &&& text_read(raw, bytes, text, r, next.bytes@, text_after)
        &&& next.start_len == self.start_len
    }

    /// Asks whether the text is there, and puts it in place of `buf`.
    pub fn poll<R: AsyncRead>(&mut self, reader: &mut R, cx: &mut Context, buf: &mut String) -> (r:
        Poll<Result<usize, Error>>)
        requires
            old(reader).wf(),
            pauses(*old(reader), *old(cx)),
            old(self).start_len <= old(self).bytes@.len(),
        ensures
            final(reader).wf(),
            final(reader).endless() == old(reader).endless(),
            continues(*old(cx), *final(cx)),
            exists|got: Seq<u8>, raw: Poll<Result<usize, Error>>| #[trigger]
                old(self).stepped(
                    *old(reader),
                    *old(cx),
                    old(buf)@,
                    got,
                    raw,
                    r,
                    *final(self),
                    *final(reader),
                    *final(cx),
                    final(buf)@,
                ),
    {
        let raw = read_to_end_internal(reader, cx, &mut self.bytes, self.start_len);
        let ghost got = self.bytes@.skip(old(self).bytes@.len() as int);
        assert(self.bytes@ =~= old(self).bytes@ + got);
        let ghost cause_of_it = raw;
        let ret = match raw {
            Poll::Pending => {
                assert(old(self).stepped(
                    *old(reader),
                    *old(cx),
                    old(buf)@,
                    got,
                    Poll::Pending,
                    Poll::Pending,
                    *self,
                    *reader,
                    *cx,
                    buf@,
                ));
                return Poll::Pending;
            },
            Poll::Ready(ret) => ret,
        };
        let mut bytes: Vec<u8> = Vec::new();
        std::mem::swap(&mut bytes, &mut self.bytes);
        match string_from_utf8(bytes) {
            Some(s) => {
                *buf = s;
                let r = Poll::Ready(ret);
                assert(old(self).stepped(
                    *old(reader),
                    *old(cx),
                    old(buf)@,
                    got,
                    cause_of_it,
                    r,
                    *self,
                    *reader,
                    *cx,
                    buf@,
                ));
                r
            },
            None => {
                let r = match ret {
                    Ok(_) => Poll::Ready(
                        Err(
                            Error::new(
                                ErrorKind::InvalidData,
                                "stream did not contain valid UTF-8",
                            ),
                        ),
                    ),
                    Err(e) => Poll::Ready(Err(e)),
                };
                assert(old(self).stepped(
                    *old(reader),
                    *old(cx),
                    old(buf)@,
                    got,
                    cause_of_it,
                    r,
                    *self,
                    *reader,
                    *cx,
                    buf@,
                ));
                r
            },
        }
    }
}

/// A buffer that is being filled from the front, and what it is filled from.
pub ghost struct Filling<R> {
    pub reader: R,
    pub cx: Context,
    pub buf: Seq<u8>,
    /// How many bytes were filled.
    pub filled: nat,
}

/// One read filled some more.
pub open spec fn fill_step<R: AsyncRead>(a: Filling<R>, b: Filling<R>) -> bool {
    let n = b.filled - a.filled;
    &&& 0 < n <= usize::MAX
    &&& a.filled <= a.buf.len()
    &&& b.filled <= b.buf.len()
    &&& a.reader.reads(
        a.cx,
        a.buf.skip(a.filled as int),
        Poll::Ready(Ok(n as usize)),
        b.reader,
        b.buf.skip(a.filled as int),
        b.cx,
    )
    &&& b.buf.take(a.filled as int) == a.buf.take(a.filled as int)
}

/// `n` reads led from `a` to `b`.
pub open spec fn fill_steps<R: AsyncRead>(a: Filling<R>, n: nat, b: Filling<R>) -> bool
    decreases n,
{
    if n == 0 {
        b == a
    } else {
        exists|mid: Filling<R>|
            {
                &&& fill_steps(a, (n - 1) as nat, mid)
                &&& #[trigger] fill_step(mid, b)
            }
    }
}

/// After `n` reads filling is at `mid`, and then it ends for now: the buffer is full, or reading
/// gives `r` or nothing.
pub open spec fn fill_stopped<R: AsyncRead>(
    a: Filling<R>,
    n: nat,
    mid: Filling<R>,
    r: Poll<Result<(), Error>>,
    b: Filling<R>,
) -> bool {
    &&& fill_steps(a, n, mid)
    &&& if mid.filled == mid.buf.len() {
        r == Poll::Ready(Ok::<(), Error>(())) && b == mid
    } else {
        let room = mid.buf.skip(mid.filled as int);
        let left = b.buf.skip(mid.filled as int);
        &&& b.filled == mid.filled
        &&& b.buf.take(mid.filled as int) == mid.buf.take(mid.filled as int)
        &&& match r {
            Poll::Pending => mid.reader.reads(
                mid.cx,
                room,
                Poll::Pending,
                b.reader,
                left,
                b.cx,
            ),
            Poll::Ready(Err(e)) => {
                ||| mid.reader.reads(mid.cx, room, Poll::Ready(Err(e)), b.reader, left, b.cx)
                ||| mid.reader.reads(mid.cx, room, Poll::Ready(Ok(0)), b.reader, left, b.cx)
                    && e.says(ErrorKind::UnexpectedEof, ""@)
            },
            Poll::Ready(Ok(_)) => false,
        }
    }
}

/// Reads exactly as many bytes as there is room for.
#[must_use]
#[derive(Debug)]
pub struct ReadExactFuture {
    /// How many bytes of the buffer were filled.
    pub filled: usize,
}

impl ReadExactFuture {
    /// Asks whether `buf` has been filled.
    pub fn poll<R: AsyncRead>(&mut self, reader: &mut R, cx: &mut Context, buf: &mut [u8]) -> (r:
        Poll<Result<(), Error>>)
        requires
            old(reader).wf(),
            old(self).filled <= old(buf)@.len(),
        ensures
            final(reader).wf(),
            continues(*old(cx), *final(cx)),
            old(self).filled <= final(self).filled <= final(buf)@.len(),
            final(buf)@.len() == old(buf)@.len(),
            r matches Poll::Ready(Ok(_)) ==> final(self).filled == final(buf)@.len(),
            exists|n: nat, mid: Filling<R>| #[trigger]
                fill_stopped(
                    (Filling {
                        reader: *old(reader),
                        cx: *old(cx),
                        buf: old(buf)@,
                        filled: old(self).filled as nat,
                    }),
                    n,
                    mid,
                    r,
                    (Filling {
                        reader: *final(reader),
                        cx: *final(cx),
                        buf: final(buf)@,
                        filled: final(self).filled as nat,
                    }),
                ),
    {
        let len: usize = buf.len();
        let ghost from = Filling {
            reader: *reader,
            cx: *cx,
            buf: buf@,
            filled: self.filled as nat,
        };
        let ghost mut n: nat = 0;
        while self.filled < len
            invariant
                reader.wf(),
                continues(from.cx, *cx),
                from == (Filling {
                    reader: *old(reader),
                    cx: *old(cx),
                    buf: old(buf)@,
                    filled: old(self).filled as nat,
                }),
                old(self).filled <= self.filled <= len,
                len == buf@.len(),
                buf@.len() == old(buf)@.len(),
                fill_steps(
                    from,
                    n,
                    Filling { reader: *reader, cx: *cx, buf: buf@, filled: self.filled as nat },
                ),
            decreases len - self.filled,
        {
            let ghost mid = Filling {
                reader: *reader,
                cx: *cx,
                buf: buf@,
                filled: self.filled as nat,
            };
            let (front, rest) = buf.split_at_mut(self.filled);
            assert(front@ =~= mid.buf.take(mid.filled as int));
            assert(rest@ =~= mid.buf.skip(mid.filled as int));
            let last = reader.poll_read(cx, rest);
            let ghost left = rest@;
            assert(buf@.skip(mid.filled as int) =~= left);
            assert(buf@.take(mid.filled as int) =~= mid.buf.take(mid.filled as int));
            let ghost stop = Filling {
                reader: *reader,
                cx: *cx,
                buf: buf@,
                filled: self.filled as nat,
            };
            match last {
                Poll::Pending => {
                    assert(fill_stopped(from, n, mid, Poll::Pending, stop));
                    return Poll::Pending;
                },
                Poll::Ready(Err(e)) => {
                    let r = Poll::Ready(Err(e));
                    assert(fill_stopped(from, n, mid, r, stop));
                    return r;
                },
                Poll::Ready(Ok(k)) => {
                    if k == 0 {
                        let r = Poll::Ready(Err(Error::of(ErrorKind::UnexpectedEof)));
                        assert(fill_stopped(from, n, mid, r, stop));
                        return r;
                    }
                    self.filled = self.filled + k;
                    proof {
                        assert(fill_step(
                            mid,
                            Filling {
                                reader: *reader,
                                cx: *cx,
                                buf: buf@,
                                filled: self.filled as nat,
                            },
                        ));
                        n = n + 1;
                    }
                },
            }
        }
        let r = Poll::Ready(Ok(()));
        proof {
            let full = Filling {
                reader: *reader,
                cx: *cx,
                buf: buf@,
                filled: self.filled as nat,
            };
            assert(fill_stopped(from, n, full, r, full));
        }
        r
    }
}

/// `given` tells for a reader what it gave so far: a read that gave some bytes adds them, and no
/// other read adds anything.
pub open spec fn tells_read<R: AsyncRead>(given: spec_fn(R) -> Seq<u8>) -> bool {
    forall|
        a: R,
        cx: Context,
        room: Seq<u8>,
        r: Poll<Result<usize, Error>>,
        b: R,
        buf: Seq<u8>,
        after: Context,
    | #[trigger]
        a.reads(cx, room, r, b, buf, after) ==> given(b) == given(a) + (match r {
            Poll::Ready(Ok(n)) => buf.take(n as int),
            _ => Seq::empty(),
        })
}

proof fn lemma_taking_given<R: AsyncRead>(
    given: spec_fn(R) -> Seq<u8>,
    from: R,
    cx: Context,
    n: nat,
    to: R,
    after: Context,
    got: Seq<u8>,
)
    requires
        tells_read(given),
        taking(from, cx, n, to, after, got),
    ensures
        given(to) == given(from) + got,
    decreases n,
{
    if n == 0 {
        assert(given(from) + Seq::empty() =~= given(from));
    } else {
        let (mid, between, last) = choose|mid: R, between: Context, last: Seq<u8>|
            {
                let before = got.len() - last.len();
                &&& 0 <= before
                &&& taking(from, cx, (n - 1) as nat, mid, between, got.take(before))
                &&& #[trigger] took(mid, between, to, after, last)
                &&& got.skip(before) == last
            };
        let before = got.len() - last.len();
        lemma_taking_given(given, from, cx, (n - 1) as nat, mid, between, got.take(before));
        let (room, buf) = choose|room: Seq<u8>, buf: Seq<u8>|
            {
                &&& #[trigger] mid.reads(
                    between,
                    room,
                    Poll::Ready(Ok(last.len() as usize)),
                    to,
                    buf,
                    after,
                )
                &&& room.len() > 0
                &&& last == buf.take(last.len() as int)
            };
        assert(mid.reads(between, room, Poll::Ready(Ok(last.len() as usize)), to, buf, after));
        assert(given(to) == given(mid) + last);
        assert(got =~= got.take(before) + last);
        assert(given(from) + got.take(before) + last =~= given(from) + got);
    }
}

/// Reading on loses no byte and makes none up: what is appended is what the reader gave, in order.
pub proof fn law_reads_on<R: AsyncRead>(
    given: spec_fn(R) -> Seq<u8>,
    from: R,
    cx: Context,
    got: Seq<u8>,
    last: Poll<Result<usize, Error>>,
    to: R,
    after: Context,
)
    requires
        tells_read(given),
        reads_on(from, cx, got, last, to, after),
    ensures
        given(to) == given(from) + got,
{
    let (n, mid, between, room, buf) = choose|
        n: nat,
        mid: R,
        between: Context,
        room: Seq<u8>,
        buf: Seq<u8>,
    | #[trigger]
        took_last(from, cx, n, mid, between, got, room, last, to, buf, after);
    lemma_taking_given(given, from, cx, n, mid, between, got);
    assert(mid.reads(between, room, last, to, buf, after));
    assert(buf.take(0) =~= Seq::empty());
    assert(given(mid) + Seq::empty() =~= given(mid));
}

/// Reading a text to its end, however often it has to wait: what was read before is kept, and the
/// text that comes out is all that the reader gave since `base`.
pub proof fn law_text_whole<R: AsyncRead>(
    given: spec_fn(R) -> Seq<u8>,
    base: Seq<u8>,
    future: ReadToStringFuture,
    reader: R,
    cx: Context,
    text: Seq<char>,
    got: Seq<u8>,
    raw: Poll<Result<usize, Error>>,
    r: Poll<Result<usize, Error>>,
    next: ReadToStringFuture,
    reader_after: R,
    after: Context,
    text_after: Seq<char>,
)
    requires
        tells_read(given),
        given(reader) == base + future.bytes@,
        future.start_len <= future.bytes@.len(),
        future.stepped(
            reader,
            cx,
            text,
            got,
            raw,
            r,
            next,
            reader_after,
            after,
            text_after,
        ),
    ensures
        r is Pending ==> given(reader_after) == base + next.bytes@ && text_after == text,
        r matches Poll::Ready(Ok(n)) ==> {
            let all = given(reader_after).skip(base.len() as int);
            &&& given(reader_after) == base + all
            &&& vstd::utf8::valid_utf8(all)
            &&& text_after == vstd::utf8::decode_utf8(all)
            &&& all.len() <= usize::MAX ==> n == all.len() - future.start_len
        },
{
    law_reads_on(given, reader, cx, got, cause(raw), reader_after, after);
    let bytes = future.bytes@ + got;
    assert(base + future.bytes@ + got =~= base + bytes);
    assert((base + bytes).skip(base.len() as int) =~= bytes);
}

proof fn lemma_fill_steps_given<R: AsyncRead>(
    given: spec_fn(R) -> Seq<u8>,
    base: Seq<u8>,
    a: Filling<R>,
    n: nat,
    b: Filling<R>,
)
    requires
        tells_read(given),
        a.filled <= a.buf.len(),
        given(a.reader) == base + a.buf.take(a.filled as int),
        fill_steps(a, n, b),
    ensures
        b.filled <= b.buf.len(),
        given(b.reader) == base + b.buf.take(b.filled as int),
    decreases n,
{
    if n > 0 {
        let mid = choose|mid: Filling<R>|
            {
                &&& fill_steps(a, (n - 1) as nat, mid)
                &&& #[trigger] fill_step(mid, b)
            };
        lemma_fill_steps_given(given, base, a, (n - 1) as nat, mid);
        let m = b.filled - mid.filled;
        assert(mid.reader.reads(
            mid.cx,
            mid.buf.skip(mid.filled as int),
            Poll::Ready(Ok(m as usize)),
            b.reader,
            b.buf.skip(mid.filled as int),
            b.cx,
        ));
        let part = b.buf.skip(mid.filled as int).take(m);
        assert(b.buf.take(b.filled as int) =~= b.buf.take(mid.filled as int) + part);
        assert(base + mid.buf.take(mid.filled as int) + part =~= base + b.buf.take(
            b.filled as int,
        ));
    }
}

/// Filling a buffer, however often it has to wait: what stands in its filled part is what the reader
/// gave since `base`, in order, and it has succeeded only once the buffer is full.
pub proof fn law_filled<R: AsyncRead>(
    given: spec_fn(R) -> Seq<u8>,
    base: Seq<u8>,
    a: Filling<R>,
    n: nat,
    mid: Filling<R>,
    r: Poll<Result<(), Error>>,
    b: Filling<R>,
)
    requires
        tells_read(given),
        a.filled <= a.buf.len(),
        given(a.reader) == base + a.buf.take(a.filled as int),
        fill_stopped(a, n, mid, r, b),
    ensures
        given(b.reader) == base + b.buf.take(b.filled as int),
        r matches Poll::Ready(Ok(_)) ==> given(b.reader) == base + b.buf,
        r is Pending ==> b.filled < mid.buf.len(),
{
    lemma_fill_steps_given(given, base, a, n, mid);
    if mid.filled == mid.buf.len() {
        assert(b.buf.take(b.filled as int) =~= b.buf);
    } else {
        let room = mid.buf.skip(mid.filled as int);
        let left = b.buf.skip(mid.filled as int);
        assert(left.take(0) =~= Seq::empty());
        assert(given(mid.reader) + Seq::empty() =~= given(mid.reader));
        match r {
            Poll::Pending => {
                assert(mid.reader.reads(mid.cx, room, Poll::Pending, b.reader, left, b.cx));
            },
            Poll::Ready(Err(e)) => {
                if !mid.reader.reads(mid.cx, room, Poll::Ready(Err(e)), b.reader, left, b.cx) {
                    assert(mid.reader.reads(
                        mid.cx,
                        room,
                        Poll::Ready(Ok(0)),
                        b.reader,
                        left,
                        b.cx,
                    ));
                }
            },
            Poll::Ready(Ok(_)) => {},
        }
    }
}

/// `ended` tells for a reader that it had nothing to give though there was room for it.
pub open spec fn tells_end<R: AsyncRead>(ended: spec_fn(R) -> bool) -> bool {
    forall|a: R, cx: Context, room: Seq<u8>, b: R, buf: Seq<u8>, after: Context| #[trigger]
        a.reads(cx, room, Poll::Ready(Ok(0)), b, buf, after) && room.len() > 0 ==> ended(b)
}

/// `failed` tells for a reader that reading failed with an error.
pub open spec fn tells_error<R: AsyncRead>(failed: spec_fn(R, Error) -> bool) -> bool {
    forall|a: R, cx: Context, room: Seq<u8>, e: Error, b: R, buf: Seq<u8>, after: Context| #[trigger]
        a.reads(cx, room, Poll::Ready(Err(e)), b, buf, after) ==> failed(b, e)
}

/// Reading to the end succeeds only once the reader has come to its end, and fails only if the reader
/// does, with its error.
pub proof fn law_ends_with_the_reader<R: AsyncRead>(
    ended: spec_fn(R) -> bool,
    failed: spec_fn(R, Error) -> bool,
    from: R,
    cx: Context,
    got: Seq<u8>,
    r: Poll<Result<usize, Error>>,
    to: R,
    after: Context,
)
    requires
        tells_end(ended),
        tells_error(failed),
        reads_on(from, cx, got, cause(r), to, after),
    ensures
        r matches Poll::Ready(Ok(_)) ==> ended(to),
        r matches Poll::Ready(Err(e)) ==> failed(to, e),
{
    let last = cause(r);
    let (n, mid, between, room, buf) = choose|
        n: nat,
        mid: R,
        between: Context,
        room: Seq<u8>,
        buf: Seq<u8>,
    | #[trigger]
        took_last(from, cx, n, mid, between, got, room, last, to, buf, after);
    assert(mid.reads(between, room, last, to, buf, after));
    if r matches Poll::Ready(Ok(_)) {
        assert(last == Poll::Ready(Ok::<usize, Error>(0)));
    }
}

} // verus!
