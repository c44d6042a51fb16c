//! Bytes in memory, with a position.

use vstd::prelude::*;
use crate::future::swap::traits::{AsyncBufRead, AsyncRead, AsyncSeek, AsyncWrite, Io, Positioned};
use crate::io::error::{Error, ErrorKind};
use crate::io::stream::{copy_bytes, smaller, SeekFrom};
use crate::task::{Context, Poll};

verus! {

/// Something that is made of bytes.
pub trait AsBytes {
    spec fn bytes(&self) -> Seq<u8>;

    fn as_bytes(&self) -> (r: &[u8])
        ensures
            r@ == self.bytes(),
    ;
}

impl AsBytes for Vec<u8> {
    open spec fn bytes(&self) -> Seq<u8> {
        self@
    }

    fn as_bytes(&self) -> (r: &[u8]) {
        self.as_slice()
    }
}

impl<'a> AsBytes for &'a [u8] {
    open spec fn bytes(&self) -> Seq<u8> {
        self@
    }

    fn as_bytes(&self) -> (r: &[u8]) {
        self
    }
}

impl<'a> AsBytes for &'a mut [u8] {
    open spec fn bytes(&self) -> Seq<u8> {
        (**self)@
    }

    fn as_bytes(&self) -> (r: &[u8]) {
        &**self
    }
}

impl<'a> AsBytes for &'a mut Vec<u8> {
    open spec fn bytes(&self) -> Seq<u8> {
        (**self)@
    }

    fn as_bytes(&self) -> (r: &[u8]) {
        (**self).as_slice()
    }
}

/// Bytes in memory, with a position that may lie behind their end.
#[derive(Debug, Default)]
pub struct Cursor<T> {
    pub inner: T,
    pub pos: u64,
}

impl<T> Cursor<T> {
    pub fn new(inner: T) -> (r: Cursor<T>)
        ensures
            r.inner == inner,
            r.pos == 0,
    {
        Cursor { inner, pos: 0 }
    }

    pub fn get_ref(&self) -> (r: &T)
        ensures
            *r == self.inner,
    {
        &self.inner
    }

    pub fn get_mut(&mut self) -> (r: &mut T)
        ensures
            *r == old(self).inner,
            *final(self) == (Cursor { inner: *final(r), pos: old(self).pos }),
    {
        &mut self.inner
    }

    pub fn into_inner(self) -> (r: T)
        ensures
            r == self.inner,
    {
        self.inner
    }

    pub fn position(&self) -> (r: u64)
        ensures
            r == self.pos,
    {
        self.pos
    }

    pub fn set_position(&mut self, pos: u64)
        ensures
            *final(self) == (Cursor { inner: old(self).inner, pos }),
    {
        self.pos = pos;
    }
}

impl<T: AsBytes> Cursor<T> {
    /// The bytes from the position on.
    pub open spec fn rest(&self) -> Seq<u8> {
        self.inner.bytes().skip(smaller(self.pos as nat, self.inner.bytes().len()) as int)
    }

    /// How many bytes there are before the position.
    fn start(&self) -> (r: usize)
        ensures
            r == smaller(self.pos as nat, self.inner.bytes().len()),
    {
        let len: usize = self.inner.as_bytes().len();
        if self.pos < len as u64 {
            self.pos as usize
        } else {
            len
        }
    }
}

impl<T: AsBytes> Io for Cursor<T> {
    open spec fn wf(&self) -> bool {
        true
    }
}

impl<T: AsBytes> AsyncRead for Cursor<T> {
    open spec fn endless(&self) -> bool {
        false
    }

    open spec fn pace(&self) -> nat {
        self.rest().len()
    }

    /// As many bytes are read as there are and as there is room for.
    open spec fn reads(
        self,
        cx: Context,
        room: Seq<u8>,
        r: Poll<Result<usize, Error>>,
        next: Self,
        buf: Seq<u8>,
        after: Context,
    ) -> bool {
        let n = smaller(self.rest().len(), room.len());
        &&& r == Poll::Ready(Ok::<usize, Error>(n as usize))
        &&& buf == self.rest().take(n as int) + room.skip(n as int)
        &&& next.inner == self.inner
        &&& next.pos == self.pos + n
        &&& after == cx
    }

    fn poll_read(&mut self, cx: &mut Context, buf: &mut [u8]) -> (r: Poll<Result<usize, Error>>) {
        let start: usize = self.start();
        let bytes = self.inner.as_bytes();
        let left: usize = bytes.len() - start;
        let n: usize = if left < buf.len() {
            left
        } else {
            buf.len()
        };
        copy_bytes(bytes, start, buf, 0, n);
        proof {
            assert(buf@ =~= self.rest().take(n as int) + old(buf)@.skip(n as int));
        }
        self.pos = self.pos + n as u64;
        Poll::Ready(Ok(n))
    }
}

impl<T: AsBytes> AsyncBufRead for Cursor<T> {
    open spec fn held(&self) -> Seq<u8> {
        self.rest()
    }

    open spec fn fills(
        self,
        cx: Context,
        r: Poll<Result<Seq<u8>, Error>>,
        next: Self,
        after: Context,
    ) -> bool {
        &&& r == Poll::Ready(Ok::<Seq<u8>, Error>(self.rest()))
        &&& next == self
        &&& after == cx
    }

    open spec fn consumes(self, amount: nat, next: Self) -> bool {
        &&& next.inner == self.inner
        &&& next.pos == self.pos + amount
    }

    open spec fn tolerates(&self, amount: nat) -> bool {
        self.pos + amount <= u64::MAX
    }

    fn poll_fill_buf(&mut self, cx: &mut Context) -> (r: Poll<Result<&[u8], Error>>) {
        let start: usize = self.start();
        let bytes = self.inner.as_bytes();
        let rest = vstd::slice::slice_subrange(bytes, start, bytes.len());
        assert(rest@ =~= self.rest());
        Poll::Ready(Ok(rest))
    }

    fn consume(&mut self, amount: usize) {
        let len: usize = self.inner.as_bytes().len();
        assert(self.rest().len() <= len);
        self.pos = self.pos + amount as u64;
    }
}

/// The position that is meant, if there is one.
pub open spec fn target(pos: SeekFrom, len: nat, at: u64) -> Option<u64> {
    let to = match pos {
        SeekFrom::Start(n) => n as int,
        SeekFrom::End(n) => len + n,
        SeekFrom::Current(n) => at + n,
    };
    if 0 <= to <= u64::MAX {
        Some(to as u64)
    } else {
        None
    }
}

impl<T: AsBytes> AsyncSeek for Cursor<T> {
    open spec fn seeks(
        self,
        cx: Context,
        pos: SeekFrom,
        r: Poll<Result<u64, Error>>,
        next: Self,
        after: Context,
    ) -> bool {
        &&& next.inner == self.inner
        &&& after == cx
        &&& match target(pos, self.inner.bytes().len(), self.pos) {
            Some(to) => r == Poll::Ready(Ok::<u64, Error>(to)) && next.pos == to,
            None => {
                &&& r matches Poll::Ready(Err(e)) && e.says(
                    ErrorKind::InvalidInput,
                    "invalid seek to a negative or overflowing position"@,
                )
                &&& next.pos == self.pos
            },
        }
    }

    fn poll_seek(&mut self, cx: &mut Context, pos: SeekFrom) -> (r: Poll<Result<u64, Error>>) {
        let (base, offset): (u64, i64) = match pos {
            SeekFrom::Start(n) => {
                self.pos = n;
                return Poll::Ready(Ok(n));
            },
            SeekFrom::End(n) => (self.inner.as_bytes().len() as u64, n),
            SeekFrom::Current(n) => (self.pos, n),
        };
        let to: i128 = base as i128 + offset as i128;
        if 0 <= to && to <= u64::MAX as i128 {
            self.pos = to as u64;
            Poll::Ready(Ok(self.pos))
        } else {
            Poll::Ready(
                Err(
                    Error::new(
                        ErrorKind::InvalidInput,
                        "invalid seek to a negative or overflowing position",
                    ),
                ),
            )
        }
    }
}

impl<T: AsBytes> Positioned for Cursor<T> {
    proof fn lemma_told(
        self,
        cx: Context,
        r: Poll<Result<u64, Error>>,
        next: Self,
        after: Context,
    ) {
    }
}

/// The bytes `old_bytes`, with `buf` written over them from `at` on, and zeros where there was nothing
/// before.
pub open spec fn overwritten(old_bytes: Seq<u8>, at: nat, buf: Seq<u8>) -> Seq<u8> {
    let len = if at + buf.len() < old_bytes.len() {
        old_bytes.len()
    } else {
        at + buf.len()
    };
    Seq::new(
        len,
        |i: int|
            if at <= i < at + buf.len() {
                buf[i - at]
            } else if i < old_bytes.len() {
                old_bytes[i]
            } else {
                0u8
            },
    )
}

/// Writes as much of `buf` as fits into `bytes` from `pos` on, and moves `pos` on by that much.
pub fn slice_write(bytes: &mut [u8], pos: &mut u64, buf: &[u8]) -> (r: usize)
    ensures
        ({
            let at = smaller(*old(pos) as nat, old(bytes)@.len());
            let n = smaller((old(bytes)@.len() - at) as nat, buf@.len());
            &&& r == n
            &&& *final(pos) == *old(pos) + n
            &&& final(bytes)@.len() == old(bytes)@.len()
            &&& final(bytes)@ == old(bytes)@.take(at as int) + buf@.take(n as int) + old(bytes)@.skip((at + n) as int)
        }),
{
    let len: usize = bytes.len();
    let at: usize = if *pos < len as u64 {
        *pos as usize
    } else {
        len
    };
    let left: usize = len - at;
    let n: usize = if left < buf.len() {
        left
    } else {
        buf.len()
    };
    copy_bytes(buf, 0, bytes, at, n);
    assert(buf@.subrange(0, n as int) =~= buf@.take(n as int));
    *pos = *pos + n as u64;
    n
}

/// What comes of writing `buf` over `bytes` from `pos` on: all of it is written, unless there can be
/// no bytes at that position.
pub open spec fn writes_over(
    bytes: Seq<u8>,
    pos: u64,
    buf: Seq<u8>,
    r: Result<usize, Error>,
    bytes_after: Seq<u8>,
    pos_after: u64,
) -> bool {
    if pos > usize::MAX {
        &&& r matches Err(e) && e.says(
            ErrorKind::InvalidInput,
            "cursor position exceeds maximum possible vector length"@,
        )
        &&& bytes_after == bytes
        &&& pos_after == pos
    } else {
        &&& r == Ok::<usize, Error>(buf.len() as usize)
        &&& bytes_after == overwritten(bytes, pos as nat, buf)
        &&& pos_after == pos + buf.len()
    }
}

/// Writes `buf` over `bytes` from `pos` on, behind whose end they grow, and moves `pos` on.
fn vec_write(bytes: &mut Vec<u8>, pos: &mut u64, buf: &[u8]) -> (r: Result<usize, Error>)
    ensures
        writes_over(old(bytes)@, *old(pos), buf@, r, final(bytes)@, *final(pos)),
{
    if *pos > usize::MAX as u64 {
        return Err(
            Error::new(
                ErrorKind::InvalidInput,
                "cursor position exceeds maximum possible vector length",
            ),
        );
    }
    let at: usize = *pos as usize;
    let ghost before = bytes@;
    while bytes.len() < at
        invariant
            before == old(bytes)@,
            before.len() <= bytes@.len(),
            before.len() < bytes@.len() ==> bytes@.len() <= at,
            forall|i: int|
                0 <= i < bytes@.len() ==> bytes@[i] == (if i < before.len() {
                    before[i]
                } else {
                    0u8
                }),
        decreases at - bytes@.len(),
    {
        bytes.push(0);
    }
    let mut i: usize = 0;
    while i < buf.len()
        invariant
            before == old(bytes)@,
            i <= buf@.len(),
            at + i <= bytes@.len() <= usize::MAX,
            bytes@.len() >= before.len(),
            bytes@.len() == before.len() || bytes@.len() == at + i,
            forall|j: int|
                0 <= j < bytes@.len() ==> bytes@[j] == (if at <= j < at + i {
                    buf@[j - at]
                } else if j < before.len() {
                    before[j]
                } else {
                    0u8
                }),
        decreases buf@.len() - i,
    {
        if at + i < bytes.len() {
            bytes[at + i] = buf[i];
        } else {
            bytes.push(buf[i]);
            assert(bytes.len() == bytes@.len());
        }
        i = i + 1;
    }
    assert(bytes@ =~= overwritten(before, at as nat, buf@));
    *pos = (at + i) as u64;
    Ok(i)
}

impl AsyncWrite for Cursor<Vec<u8>> {
    open spec fn stamina(&self) -> nat {
        0
    }

    open spec fn patience(&self) -> nat {
        0
    }

    proof fn lemma_patience(&self) {
    }

    /// All of it is written, unless there can be no bytes at that position.
    open spec fn writes(
        self,
        cx: Context,
        buf: Seq<u8>,
        r: Poll<Result<usize, Error>>,
        next: Self,
        after: Context,
    ) -> bool {
        &&& after == cx
        &&& r matches Poll::Ready(out) && writes_over(
            self.inner.bytes(),
            self.pos,
            buf,
            out,
            next.inner.bytes(),
            next.pos,
        )
    }

    open spec fn flushes(
        self,
        cx: Context,
        r: Poll<Result<(), Error>>,
        next: Self,
        after: Context,
    ) -> bool {
        r == Poll::Ready(Ok::<(), Error>(())) && next == self && after == cx
    }

    open spec fn closes(
        self,
        cx: Context,
        r: Poll<Result<(), Error>>,
        next: Self,
        after: Context,
    ) -> bool {
        self.flushes(cx, r, next, after)
    }

    fn poll_write(&mut self, cx: &mut Context, buf: &[u8]) -> (r: Poll<Result<usize, Error>>) {
        Poll::Ready(vec_write(&mut self.inner, &mut self.pos, buf))
    }

    fn poll_flush(&mut self, cx: &mut Context) -> (r: Poll<Result<(), Error>>) {
        Poll::Ready(Ok(()))
    }

    fn poll_close(&mut self, cx: &mut Context) -> (r: Poll<Result<(), Error>>) {
        self.poll_flush(cx)
    }
}

impl<'a> AsyncWrite for Cursor<&'a mut Vec<u8>> {
    open spec fn stamina(&self) -> nat {
        0
    }

    open spec fn patience(&self) -> nat {
        0
    }

    proof fn lemma_patience(&self) {
    }

    /// All of it is written, unless there can be no bytes at that position.
    open spec fn writes(
        self,
        cx: Context,
        buf: Seq<u8>,
        r: Poll<Result<usize, Error>>,
        next: Self,
        after: Context,
    ) -> bool {
        &&& after == cx
        &&& r matches Poll::Ready(out) && writes_over(
            self.inner.bytes(),
            self.pos,
            buf,
            out,
            next.inner.bytes(),
            next.pos,
        )
    }

    open spec fn flushes(
        self,
        cx: Context,
        r: Poll<Result<(), Error>>,
        next: Self,
        after: Context,
    ) -> bool {
        r == Poll::Ready(Ok::<(), Error>(())) && next == self && after == cx
    }

    open spec fn closes(
        self,
        cx: Context,
        r: Poll<Result<(), Error>>,
        next: Self,
        after: Context,
    ) -> bool {
        self.flushes(cx, r, next, after)
    }

    fn poll_write(&mut self, cx: &mut Context, buf: &[u8]) -> (r: Poll<Result<usize, Error>>)
        ensures
            final(final(self).inner)@ == final(old(self).inner)@,
    {
        Poll::Ready(vec_write(&mut *self.inner, &mut self.pos, buf))
    }

    fn poll_flush(&mut self, cx: &mut Context) -> (r: Poll<Result<(), Error>>) {
        Poll::Ready(Ok(()))
    }

    fn poll_close(&mut self, cx: &mut Context) -> (r: Poll<Result<(), Error>>) {
        self.poll_flush(cx)
    }
}

impl<'a> AsyncWrite for Cursor<&'a mut [u8]> {
    open spec fn stamina(&self) -> nat {
        0
    }

    open spec fn patience(&self) -> nat {
        0
    }

    proof fn lemma_patience(&self) {
    }

    /// As much of it is written as there is room for.
    open spec fn writes(
        self,
        cx: Context,
        buf: Seq<u8>,
        r: Poll<Result<usize, Error>>,
        next: Self,
        after: Context,
    ) -> bool {
        let n = smaller(self.rest().len(), buf.len());
        let at = self.inner.bytes().len() - self.rest().len();
        &&& after == cx
        &&& r == Poll::Ready(Ok::<usize, Error>(n as usize))
        &&& next.inner.bytes() == self.inner.bytes().take(at) + buf.take(n as int)
            + self.inner.bytes().skip(at + n)
        &&& next.pos == self.pos + n
    }

    open spec fn flushes(
        self,
        cx: Context,
        r: Poll<Result<(), Error>>,
        next: Self,
        after: Context,
    ) -> bool {
        r == Poll::Ready(Ok::<(), Error>(())) && next == self && after == cx
    }

    open spec fn closes(
        self,
        cx: Context,
        r: Poll<Result<(), Error>>,
        next: Self,
        after: Context,
    ) -> bool {
        self.flushes(cx, r, next, after)
    }

    fn poll_write(&mut self, cx: &mut Context, buf: &[u8]) -> (r: Poll<Result<usize, Error>>)
        ensures
            final(final(self).inner)@ == final(old(self).inner)@,
    {
        Poll::Ready(Ok(slice_write(&mut *self.inner, &mut self.pos, buf)))
    }

    fn poll_flush(&mut self, cx: &mut Context) -> (r: Poll<Result<(), Error>>) {
        Poll::Ready(Ok(()))
    }

    fn poll_close(&mut self, cx: &mut Context) -> (r: Poll<Result<(), Error>>) {
        self.poll_flush(cx)
    }
}

/// Bytes are read in order, each once: what two reads give is the front of what was left before, and
/// what is left behind it is left.
pub proof fn law_read_in_order<T: AsBytes>(
    first: Cursor<T>,
    cx: Context,
    room: Seq<u8>,
    r: Poll<Result<usize, Error>>,
    second: Cursor<T>,
    buf: Seq<u8>,
    cx2: Context,
    room2: Seq<u8>,
    r2: Poll<Result<usize, Error>>,
    third: Cursor<T>,
    buf2: Seq<u8>,
    after: Context,
)
    requires
        room.len() <= usize::MAX,
        room2.len() <= usize::MAX,
        first.reads(cx, room, r, second, buf, after),
        second.reads(cx2, room2, r2, third, buf2, after),
    ensures
        r matches Poll::Ready(Ok(n)) && n <= room.len() && n <= first.rest().len() && (n
            == room.len() || n == first.rest().len()),
        r2 matches Poll::Ready(Ok(n2)) && n2 <= room2.len(),
        ({
            let n = r->Ready_0->Ok_0 as int;
            let n2 = r2->Ready_0->Ok_0 as int;
            &&& second.rest() == first.rest().skip(n)
            &&& buf.take(n) + buf2.take(n2) + third.rest() == first.rest()
            &&& buf.skip(n) == room.skip(n)
            &&& third.pos == first.pos + n + n2
        }),
{
    let n = smaller(first.rest().len(), room.len()) as int;
    let n2 = smaller(second.rest().len(), room2.len()) as int;
    assert(second.rest() =~= first.rest().skip(n));
    assert(third.rest() =~= second.rest().skip(n2));
    assert(buf.take(n) =~= first.rest().take(n));
    assert(buf2.take(n2) =~= second.rest().take(n2));
    assert(buf.skip(n) =~= room.skip(n));
    assert(buf.take(n) + buf2.take(n2) + third.rest() =~= first.rest());
}

/// What the buffer shows is what is left, and what is consumed of it is gone.
pub proof fn law_consumed<T: AsBytes>(
    cursor: Cursor<T>,
    cx: Context,
    r: Poll<Result<Seq<u8>, Error>>,
    mid: Cursor<T>,
    after: Context,
    amount: nat,
    next: Cursor<T>,
)
    requires
        cursor.fills(cx, r, mid, after),
        mid.consumes(amount, next),
        amount <= cursor.rest().len(),
    ensures
        r == Poll::Ready(Ok::<Seq<u8>, Error>(cursor.rest())),
        next.rest() == cursor.rest().skip(amount as int),
{
    assert(next.rest() =~= cursor.rest().skip(amount as int));
}

/// The position from which something is read is the one to which it was gone: from the start, from
/// the end or from where one was; it cannot lie before the start, and an attempt to go there changes
/// nothing.
pub proof fn law_seek<T: AsBytes>(
    cursor: Cursor<T>,
    cx: Context,
    pos: SeekFrom,
    r: Poll<Result<u64, Error>>,
    next: Cursor<T>,
    after: Context,
)
    requires
        cursor.seeks(cx, pos, r, next, after),
    ensures
        r is Ready,
        next.inner == cursor.inner,
        r matches Poll::Ready(Ok(to)) ==> next.pos == to,
        r matches Poll::Ready(Err(_)) ==> next.pos == cursor.pos,
        pos matches SeekFrom::Start(n) ==> next.pos == n && r == Poll::Ready(Ok::<u64, Error>(n)),
        pos matches SeekFrom::Current(n) ==> {
            &&& (r matches Poll::Ready(Ok(_))) <==> 0 <= cursor.pos + n <= u64::MAX
            &&& r matches Poll::Ready(Ok(to)) ==> to == cursor.pos + n
        },
        pos matches SeekFrom::End(n) ==> {
            &&& (r matches Poll::Ready(Ok(_))) <==> 0 <= cursor.inner.bytes().len() + n
                <= u64::MAX
            &&& r matches Poll::Ready(Ok(to)) ==> to == cursor.inner.bytes().len() + n
        },
{
}

/// What was written is read from where it was written, and around it everything is as it was; where
/// there was nothing before it, there are zeros.
pub proof fn law_written_is_read(
    bytes: Seq<u8>,
    pos: u64,
    buf: Seq<u8>,
    r: Result<usize, Error>,
    bytes_after: Seq<u8>,
    pos_after: u64,
)
    requires
        buf.len() <= usize::MAX,
        writes_over(bytes, pos, buf, r, bytes_after, pos_after),
    ensures
        r is Err <==> pos > usize::MAX,
        r is Err ==> bytes_after == bytes && pos_after == pos,
        r matches Ok(n) ==> {
            &&& n == buf.len()
            &&& pos_after == pos + n
            &&& bytes_after.len() >= pos + n
            &&& bytes_after.subrange(pos as int, pos + n) == buf
            &&& bytes_after.len() == bytes.len() || bytes_after.len() == pos + n
            &&& bytes_after.len() >= bytes.len()
            &&& forall|i: int| 0 <= i < pos && i < bytes.len() ==> bytes_after[i] == bytes[i]
            &&& forall|i: int| pos + n <= i < bytes.len() ==> bytes_after[i] == bytes[i]
            &&& forall|i: int| bytes.len() <= i < pos ==> bytes_after[i] == 0
        },
{
    if r is Ok {
        assert(bytes_after.subrange(pos as int, pos + buf.len()) =~= buf);
    }
}

/// The same holds where there is only so much room: as much is written as fits, and is read from
/// where it was written.
pub proof fn law_written_is_read_in_place<'a>(
    cursor: Cursor<&'a mut [u8]>,
    cx: Context,
    buf: Seq<u8>,
    r: Poll<Result<usize, Error>>,
    next: Cursor<&'a mut [u8]>,
    after: Context,
)
    requires
        buf.len() <= usize::MAX,
        cursor.writes(cx, buf, r, next, after),
    ensures
        r matches Poll::Ready(Ok(n)) && n <= buf.len() && n <= cursor.rest().len() && (n
            == buf.len() || n == cursor.rest().len()),
        ({
            let n = r->Ready_0->Ok_0;
            let before = cursor.inner.bytes();
            let now = next.inner.bytes();
            &&& next.pos == cursor.pos + n
            &&& now.len() == before.len()
            &&& n > 0 ==> now.subrange(cursor.pos as int, cursor.pos + n) == buf.take(n as int)
            &&& forall|i: int|
                0 <= i < before.len() && !(cursor.pos <= i < cursor.pos + n) ==> now[i] == before[i]
        }),
{
    let n = r->Ready_0->Ok_0;
    let before = cursor.inner.bytes();
    let now = next.inner.bytes();
    assert(now.len() == before.len());
    if n > 0 {
        assert(now.subrange(cursor.pos as int, cursor.pos + n) =~= buf.take(n as int));
    }
}

/// Flushing and closing bytes in memory changes nothing and succeeds at once.
pub proof fn law_flushed_at_once(
    cursor: Cursor<Vec<u8>>,
    cx: Context,
    r: Poll<Result<(), Error>>,
    next: Cursor<Vec<u8>>,
    after: Context,
)
    requires
        cursor.flushes(cx, r, next, after) || cursor.closes(cx, r, next, after),
    ensures
        r == Poll::Ready(Ok::<(), Error>(())),
        next == cursor,
{
}

} // verus!
