//! Something blocking that is taken not to block.

use vstd::prelude::*;
use crate::future::swap::traits::{interrupted, AsyncRead, AsyncSeek, AsyncWrite, Io};
use crate::io::error::{Error, ErrorKind};
use crate::io::stream::{Read, Seek, SeekFrom, Write};
use crate::task::{Context, Poll};

verus! {

/// Something blocking that is taken not to block. What is interrupted is done again.
#[derive(Debug)]
pub struct AssertAsync<T>(pub T);

impl<T> AssertAsync<T> {
    pub fn new(io: T) -> (r: Self)
        ensures
            r.0 == io,
    {
        AssertAsync(io)
    }

    pub fn get_ref(&self) -> (r: &T)
        ensures
            *r == self.0,
    {
        &self.0
    }

    pub fn get_mut(&mut self) -> (r: &mut T)
        ensures
            *r == old(self).0,
            final(self).0 == *final(r),
    {
        &mut self.0
    }

    pub fn into_inner(self) -> (r: T)
        ensures
            r == self.0,
    {
        self.0
    }
}

impl<T> Io for AssertAsync<T> {
    open spec fn wf(&self) -> bool {
        true
    }
}

/// After `n` reads that were interrupted, `from` and the buffer `room` have become `to` and
/// `buf`.
pub open spec fn read_again<T: Read>(from: T, room: Seq<u8>, n: nat, to: T, buf: Seq<u8>) -> bool
    decreases n,
{
    if n == 0 {
        to == from && buf == room
    } else {
        exists|mid: T, was: Seq<u8>, e: Error|
            {
                &&& read_again(from, room, (n - 1) as nat, mid, was)
                &&& #[trigger] mid.reads(was, Err(e), to, buf)
                &&& e.kind == ErrorKind::Interrupted
            }
    }
}

/// After `n` writes that were interrupted, `from` has become `to`.
pub open spec fn write_again<T: Write>(from: T, buf: Seq<u8>, n: nat, to: T) -> bool
    decreases n,
{
    if n == 0 {
        to == from
    } else {
        exists|mid: T, e: Error|
            {
                &&& write_again(from, buf, (n - 1) as nat, mid)
                &&& #[trigger] mid.writes(buf, Err(e), to)
                &&& e.kind == ErrorKind::Interrupted
            }
    }
}

/// After flushing was interrupted `n` times, `from` has become `to`.
pub open spec fn flush_again<T: Write>(from: T, n: nat, to: T) -> bool
    decreases n,
{
    if n == 0 {
        to == from
    } else {
        exists|mid: T, e: Error|
            {
                &&& flush_again(from, (n - 1) as nat, mid)
                &&& #[trigger] mid.flushes(Err(e), to)
                &&& e.kind == ErrorKind::Interrupted
            }
    }
}

/// After seeking was interrupted `n` times, `from` has become `to`.
pub open spec fn seek_again<T: Seek>(from: T, pos: SeekFrom, n: nat, to: T) -> bool
    decreases n,
{
    if n == 0 {
        to == from
    } else {
        exists|mid: T, e: Error|
            {
                &&& seek_again(from, pos, (n - 1) as nat, mid)
                &&& #[trigger] mid.seeks(pos, Err(e), to)
                &&& e.kind == ErrorKind::Interrupted
            }
    }
}

impl<T: Read> AssertAsync<T> {
    /// After `n` interruptions the reader is `mid` and the buffer `was`, and then it gives `r`.
    pub open spec fn read_at_last(
        self,
        room: Seq<u8>,
        n: nat,
        mid: T,
        was: Seq<u8>,
        r: Poll<Result<usize, Error>>,
        next: Self,
        buf: Seq<u8>,
    ) -> bool {
        &&& read_again(self.0, room, n, mid, was)
        &&& r matches Poll::Ready(out) && mid.reads(was, out, next.0, buf)
        &&& !interrupted(r)
    }
}

impl<T: Read> AsyncRead for AssertAsync<T> {
    open spec fn endless(&self) -> bool {
        self.0.endless()
    }

    open spec fn pace(&self) -> nat {
        self.0.pace()
    }

    open spec fn reads(
        self,
        cx: Context,
        room: Seq<u8>,
        r: Poll<Result<usize, Error>>,
        next: Self,
        buf: Seq<u8>,
        after: Context,
    ) -> bool {
        &&& exists|n: nat, mid: T, was: Seq<u8>| #[trigger]
            self.read_at_last(room, n, mid, was, r, next, buf)
        &&& after == cx
    }

    fn poll_read(&mut self, cx: &mut Context, buf: &mut [u8]) -> (r: Poll<Result<usize, Error>>) {
        let ghost mut n: nat = 0;
        loop
            invariant
                *cx == *old(cx),
                buf@.len() == old(buf)@.len(),
                read_again(old(self).0, old(buf)@, n, self.0, buf@),
                self.0.endless() == old(self).0.endless(),
                self.0.pace() <= old(self).0.pace(),
            decreases self.0.patience(),
        {
            let ghost mid = self.0;
            let ghost was = buf@;
            match self.0.read(buf) {
                Ok(k) => {
                    assert(old(self).read_at_last(old(buf)@, n, mid, was, Poll::Ready(Ok(k)), *self, buf@));
                    return Poll::Ready(Ok(k));
                },
                Err(err) => {
                    assert(mid.reads(was, Err(err), self.0, buf@));
                    if err.kind() != ErrorKind::Interrupted {
                        assert(old(self).read_at_last(
                            old(buf)@,
                            n,
                            mid,
                            was,
                            Poll::Ready(Err(err)),
                            *self,
                            buf@,
                        ));
                        return Poll::Ready(Err(err));
                    }
                    proof {
                        n = n + 1;
                    }
                },
            }
        }
    }
}

impl<T: Write> AssertAsync<T> {
    /// After `n` interruptions the writer is `mid`, and then it gives `r`.
    pub open spec fn written_at_last(
        self,
        buf: Seq<u8>,
        n: nat,
        mid: T,
        r: Poll<Result<usize, Error>>,
        next: Self,
    ) -> bool {
        &&& write_again(self.0, buf, n, mid)
        &&& r matches Poll::Ready(out) && mid.writes(buf, out, next.0)
        &&& !interrupted(r)
    }

    /// After `n` interruptions the writer is `mid`, and then flushing gives `r`.
    pub open spec fn flushed_at_last(
        self,
        n: nat,
        mid: T,
        r: Poll<Result<(), Error>>,
        next: Self,
    ) -> bool {
        &&& flush_again(self.0, n, mid)
        &&& r matches Poll::Ready(out) && mid.flushes(out, next.0)
        &&& !interrupted(r)
    }
}

impl<T: Write> AsyncWrite for AssertAsync<T> {
    open spec fn stamina(&self) -> nat {
        0
    }

    open spec fn patience(&self) -> nat {
        0
    }

    proof fn lemma_patience(&self) {
    }

    open spec fn writes(
        self,
        cx: Context,
        buf: Seq<u8>,
        r: Poll<Result<usize, Error>>,
        next: Self,
        after: Context,
    ) -> bool {
        &&& exists|n: nat, mid: T| #[trigger]
            self.written_at_last(buf, n, mid, r, next)
        &&& after == cx
    }

    open spec fn flushes(
        self,
        cx: Context,
        r: Poll<Result<(), Error>>,
        next: Self,
        after: Context,
    ) -> bool {
        &&& exists|n: nat, mid: T| #[trigger] self.flushed_at_last(n, mid, r, next)
        &&& after == cx
    }

    /// Closing does no more than flushing.
    open spec fn closes(
        self,
        cx: Context,
        r: Poll<Result<(), Error>>,
        next: Self,
        after: Context,
    ) -> bool {
        self.flushes(cx, r, next, after)
    }

    fn poll_write(&mut self, cx: &mut Context, buf: &[u8]) -> (r: Poll<Result<usize, Error>>) {
        let ghost mut n: nat = 0;
        loop
            invariant
                *cx == *old(cx),
                write_again(old(self).0, buf@, n, self.0),
            decreases self.0.patience(),
        {
            let ghost mid = self.0;
            match self.0.write(buf) {
                Ok(k) => {
                    assert(old(self).written_at_last(buf@, n, mid, Poll::Ready(Ok(k)), *self));
                    return Poll::Ready(Ok(k));
                },
                Err(err) => {
                    assert(mid.writes(buf@, Err(err), self.0));
                    if err.kind() != ErrorKind::Interrupted {
                        assert(old(self).written_at_last(buf@, n, mid, Poll::Ready(Err(err)), *self));
                        return Poll::Ready(Err(err));
                    }
                    proof {
                        n = n + 1;
                    }
                },
            }
        }
    }

    fn poll_flush(&mut self, cx: &mut Context) -> (r: Poll<Result<(), Error>>) {
        let ghost mut n: nat = 0;
        loop
            invariant
                *cx == *old(cx),
                flush_again(old(self).0, n, self.0),
            decreases self.0.patience(),
        {
            let ghost mid = self.0;
            match self.0.flush() {
                Ok(done) => {
                    assert(old(self).flushed_at_last(n, mid, Poll::Ready(Ok(done)), *self));
                    return Poll::Ready(Ok(done));
                },
                Err(err) => {
                    assert(mid.flushes(Err(err), self.0));
                    if err.kind() != ErrorKind::Interrupted {
                        assert(old(self).flushed_at_last(n, mid, Poll::Ready(Err(err)), *self));
                        return Poll::Ready(Err(err));
                    }
                    proof {
                        n = n + 1;
                    }
                },
            }
        }
    }

    fn poll_close(&mut self, cx: &mut Context) -> (r: Poll<Result<(), Error>>) {
        self.poll_flush(cx)
    }
}

impl<T: Seek> AssertAsync<T> {
    /// After `n` interruptions it is `mid`, and then seeking gives `r`.
    pub open spec fn sought_at_last(
        self,
        pos: SeekFrom,
        n: nat,
        mid: T,
        r: Poll<Result<u64, Error>>,
        next: Self,
    ) -> bool {
        &&& seek_again(self.0, pos, n, mid)
        &&& r matches Poll::Ready(out) && mid.seeks(pos, out, next.0)
        &&& !interrupted(r)
    }
}

impl<T: Seek> AsyncSeek for AssertAsync<T> {
    open spec fn seeks(
        self,
        cx: Context,
        pos: SeekFrom,
        r: Poll<Result<u64, Error>>,
        next: Self,
        after: Context,
    ) -> bool {
        &&& exists|n: nat, mid: T| #[trigger] self.sought_at_last(pos, n, mid, r, next)
        &&& after == cx
    }

    fn poll_seek(&mut self, cx: &mut Context, pos: SeekFrom) -> (r: Poll<Result<u64, Error>>) {
        let ghost mut n: nat = 0;
        loop
            invariant
                *cx == *old(cx),
                seek_again(old(self).0, pos, n, self.0),
            decreases self.0.seek_patience(),
        {
            let ghost mid = self.0;
            match self.0.seek(pos) {
                Ok(at) => {
                    assert(old(self).sought_at_last(pos, n, mid, Poll::Ready(Ok(at)), *self));
                    return Poll::Ready(Ok(at));
                },
                Err(err) => {
                    assert(mid.seeks(pos, Err(err), self.0));
                    if err.kind() != ErrorKind::Interrupted {
                        assert(old(self).sought_at_last(pos, n, mid, Poll::Ready(Err(err)), *self));
                        return Poll::Ready(Err(err));
                    }
                    proof {
                        n = n + 1;
                    }
                },
            }
        }
    }
}

/// What is taken not to block never has anything to wait for, and never tells of an interruption: what
/// is told is what came of the last attempt, and all before it were interrupted.
pub proof fn law_never_waits_to_read<T: Read>(
    io: AssertAsync<T>,
    room: Seq<u8>,
    n: nat,
    mid: T,
    was: Seq<u8>,
    r: Poll<Result<usize, Error>>,
    next: AssertAsync<T>,
    buf: Seq<u8>,
)
    requires
        io.read_at_last(room, n, mid, was, r, next, buf),
    ensures
        r matches Poll::Ready(out) && mid.reads(was, out, next.0, buf),
        r matches Poll::Ready(Err(e)) ==> !(e.kind is Interrupted),
        n == 0 ==> mid == io.0 && was == room,
        n > 0 ==> exists|before: T, held: Seq<u8>, e: Error|
            e.kind is Interrupted && #[trigger] before.reads(held, Err(e), mid, was),
{
}

/// The same goes for writing, and for flushing, which is all that closing does.
pub proof fn law_never_waits_to_write<T: Write>(
    io: AssertAsync<T>,
    cx: Context,
    buf: Seq<u8>,
    n: nat,
    mid: T,
    r: Poll<Result<usize, Error>>,
    next: AssertAsync<T>,
    m: nat,
    flushing: T,
    flushed: Poll<Result<(), Error>>,
    last: AssertAsync<T>,
)
    requires
        io.written_at_last(buf, n, mid, r, next),
        next.flushed_at_last(m, flushing, flushed, last),
    ensures
        r matches Poll::Ready(out) && mid.writes(buf, out, next.0),
        r matches Poll::Ready(Err(e)) ==> !(e.kind is Interrupted),
        n == 0 ==> mid == io.0,
        n > 0 ==> exists|before: T, e: Error|
            e.kind is Interrupted && #[trigger] before.writes(buf, Err(e), mid),
        flushed matches Poll::Ready(out) && flushing.flushes(out, last.0),
        flushed matches Poll::Ready(Err(e)) ==> !(e.kind is Interrupted),
        m == 0 ==> flushing == next.0,
        next.flushes(cx, flushed, last, cx),
        next.closes(cx, flushed, last, cx),
{
}

/// Nor has going to a position anything to wait for.
pub proof fn law_never_waits_to_seek<T: Seek>(
    io: AssertAsync<T>,
    pos: SeekFrom,
    n: nat,
    mid: T,
    r: Poll<Result<u64, Error>>,
    next: AssertAsync<T>,
)
    requires
        io.sought_at_last(pos, n, mid, r, next),
    ensures
        r matches Poll::Ready(out) && mid.seeks(pos, out, next.0),
        r matches Poll::Ready(Err(e)) ==> !(e.kind is Interrupted),
        n == 0 ==> mid == io.0,
        n > 0 ==> exists|before: T, e: Error|
            e.kind is Interrupted && #[trigger] before.seeks(pos, Err(e), mid),
{
}

} // verus!
