//! What can be read, written and sought without blocking.

use vstd::prelude::*;
use crate::future::future::continues;
use crate::io::error::{Error, ErrorKind};
use crate::io::stream::SeekFrom;
use crate::task::{Context, Poll};

verus! {

/// Some bytes were read.
pub open spec fn moves(r: Poll<Result<usize, Error>>) -> bool {
    r matches Poll::Ready(Ok(n)) && n > 0
}

/// The operation was broken off by a signal.
pub open spec fn interrupted<T>(r: Poll<Result<T, Error>>) -> bool {
    r matches Poll::Ready(Err(e)) && e.kind == ErrorKind::Interrupted
}

/// Something that is read, written or has a position.
pub trait Io: Sized {
    /// It can be used.
    spec fn wf(&self) -> bool;
}

/// Something that bytes are read from.
pub trait AsyncRead: Io {
    /// Bytes may come for ever without a pause.
    spec fn endless(&self) -> bool;

    /// How often at most bytes come before there is a pause, unless they come for ever.
    spec fn pace(&self) -> nat;

    /// Reading in `cx` into a buffer that holds `room` can give `r` and leave `next`, the buffer
    /// `buf` and the context `after` behind.
    spec fn reads(
        self,
        cx: Context,
        room: Seq<u8>,
        r: Poll<Result<usize, Error>>,
        next: Self,
        buf: Seq<u8>,
        after: Context,
    ) -> bool;

    /// Reads some bytes into the front of `buf`.
    fn poll_read(&mut self, cx: &mut Context, buf: &mut [u8]) -> (r: Poll<Result<usize, Error>>)
        requires
            old(self).wf(),
        ensures
            final(self).wf(),
            old(self).reads(*old(cx), old(buf)@, r, *final(self), final(buf)@, *final(cx)),
            continues(*old(cx), *final(cx)),
            final(buf)@.len() == old(buf)@.len(),
            r matches Poll::Ready(Ok(n)) ==> n <= old(buf)@.len(),
            final(self).endless() == old(self).endless(),
            !old(self).endless() && moves(r) ==> final(self).pace() < old(self).pace(),
    ;
}

/// The bytes of a buffer that was asked for.
pub open spec fn shown(r: Poll<Result<&[u8], Error>>) -> Poll<Result<Seq<u8>, Error>> {
    match r {
        Poll::Ready(Ok(bytes)) => Poll::Ready(Ok(bytes@)),
        Poll::Ready(Err(e)) => Poll::Ready(Err(e)),
        Poll::Pending => Poll::Pending,
    }
}

/// Something that bytes are read from and that has a buffer of its own.
pub trait AsyncBufRead: AsyncRead {
    /// The bytes in the buffer.
    spec fn held(&self) -> Seq<u8>;

    /// Filling the buffer in `cx` can give `r` and leave `next` and `after` behind.
    spec fn fills(
        self,
        cx: Context,
        r: Poll<Result<Seq<u8>, Error>>,
        next: Self,
        after: Context,
    ) -> bool;

    /// Consuming `amount` bytes leaves `next` behind.
    spec fn consumes(self, amount: nat, next: Self) -> bool;

    /// It may be told to consume that many bytes, though there are not so many in the buffer.
    spec fn tolerates(&self, amount: nat) -> bool;

    /// Reads some bytes into the buffer if there are none, and shows what is in it.
    fn poll_fill_buf(&mut self, cx: &mut Context) -> (r: Poll<Result<&[u8], Error>>)
        requires
            old(self).wf(),
        ensures
            final(self).wf(),
            old(self).fills(*old(cx), shown(r), *final(self), *final(cx)),
            continues(*old(cx), *final(cx)),
            r matches Poll::Ready(Ok(bytes)) ==> final(self).held() == bytes@,
            final(self).endless() == old(self).endless(),
            !old(self).endless() && (r matches Poll::Ready(Ok(bytes)) && bytes@.len() > 0)
                ==> final(self).pace() <= old(self).pace(),
    ;

    /// Drops bytes from the front of the buffer.
    fn consume(&mut self, amount: usize)
        requires
            old(self).wf(),
            amount <= old(self).held().len() || old(self).tolerates(amount as nat),
        ensures
            final(self).wf(),
            old(self).consumes(amount as nat, *final(self)),
            final(self).endless() == old(self).endless(),
            !old(self).endless() && 0 < amount <= old(self).held().len() ==> final(self).pace()
                < old(self).pace(),
    ;
}

/// Something that bytes are written to.
pub trait AsyncWrite: Io {
    /// How often in a row writing is interrupted at most.
    spec fn stamina(&self) -> nat;

    /// How often writing can be interrupted now, before it is not.
    spec fn patience(&self) -> nat;

    proof fn lemma_patience(&self)
        requires
            self.wf(),
        ensures
            self.patience() <= self.stamina(),
    ;

    /// Writing the bytes `buf` in `cx` can give `r` and leave `next` and `after` behind.
    spec fn writes(
        self,
        cx: Context,
        buf: Seq<u8>,
        r: Poll<Result<usize, Error>>,
        next: Self,
        after: Context,
    ) -> bool;

    /// Flushing in `cx` can give `r` and leave `next` and `after` behind.
    spec fn flushes(self, cx: Context, r: Poll<Result<(), Error>>, next: Self, after: Context) -> bool;

    /// Closing in `cx` can give `r` and leave `next` and `after` behind.
    spec fn closes(self, cx: Context, r: Poll<Result<(), Error>>, next: Self, after: Context) -> bool;

    /// Writes some bytes from the front of `buf`.
    fn poll_write(&mut self, cx: &mut Context, buf: &[u8]) -> (r: Poll<Result<usize, Error>>)
        requires
            old(self).wf(),
        ensures
            final(self).wf(),
            old(self).writes(*old(cx), buf@, r, *final(self), *final(cx)),
            continues(*old(cx), *final(cx)),
            r matches Poll::Ready(Ok(n)) ==> n <= buf@.len(),
            final(self).stamina() == old(self).stamina(),
            interrupted(r) ==> final(self).patience() < old(self).patience(),
    ;

    /// Sees to it that what was written has arrived.
    fn poll_flush(&mut self, cx: &mut Context) -> (r: Poll<Result<(), Error>>)
        requires
            old(self).wf(),
        ensures
            final(self).wf(),
            old(self).flushes(*old(cx), r, *final(self), *final(cx)),
            continues(*old(cx), *final(cx)),
            final(self).stamina() == old(self).stamina(),
    ;

    /// Closes it, after which nothing is written any more.
    fn poll_close(&mut self, cx: &mut Context) -> (r: Poll<Result<(), Error>>)
        requires
            old(self).wf(),
        ensures
            final(self).wf(),
            old(self).closes(*old(cx), r, *final(self), *final(cx)),
            continues(*old(cx), *final(cx)),
            final(self).stamina() == old(self).stamina(),
    ;
}

/// Something that has a position.
pub trait AsyncSeek: Io {
    /// Going to `pos` in `cx` can give `r` and leave `next` and `after` behind.
    spec fn seeks(
        self,
        cx: Context,
        pos: SeekFrom,
        r: Poll<Result<u64, Error>>,
        next: Self,
        after: Context,
    ) -> bool;

    /// Goes to a position, and gives it as counted from the start.
    fn poll_seek(&mut self, cx: &mut Context, pos: SeekFrom) -> (r: Poll<Result<u64, Error>>)
        requires
            old(self).wf(),
        ensures
            final(self).wf(),
            old(self).seeks(*old(cx), pos, r, *final(self), *final(cx)),
            continues(*old(cx), *final(cx)),
    ;
}

/// Something that is read and that has a position. Asking for the position leaves what there is
/// to read.
pub trait Positioned: AsyncRead + AsyncSeek {
    proof fn lemma_told(
        self,
        cx: Context,
        r: Poll<Result<u64, Error>>,
        next: Self,
        after: Context,
    )
        requires
            self.wf(),
            self.seeks(cx, SeekFrom::Current(0), r, next, after),
        ensures
            next.endless() == self.endless(),
            next.pace() <= self.pace(),
    ;
}

} // verus!
