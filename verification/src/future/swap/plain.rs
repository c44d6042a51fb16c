//! Sources and sinks that have no buffer.

use vstd::prelude::*;
use crate::future::swap::traits::{AsyncBufRead, AsyncRead, AsyncWrite, Io};
use crate::io::error::Error;
use crate::task::{Context, Poll};

verus! {

/// Gives one byte again and again.
#[derive(Debug)]
pub struct Repeat {
    pub byte: u8,
}

pub fn repeat(byte: u8) -> (r: Repeat)
    ensures
        r.byte == byte,
{
    Repeat { byte }
}

impl Io for Repeat {
    open spec fn wf(&self) -> bool {
        true
    }
}

impl AsyncRead for Repeat {
    open spec fn endless(&self) -> bool {
        true
    }

    open spec fn pace(&self) -> nat {
        0
    }

    open spec fn reads(
        self,
        cx: Context,
        room: Seq<u8>,
        r: Poll<Result<usize, Error>>,
        next: Self,
        buf: Seq<u8>,
        after: Context,
    ) -> bool {
        &&& r == Poll::Ready(Ok::<usize, Error>(room.len() as usize))
        &&& buf.len() == room.len()
        &&& forall|i: int| 0 <= i < buf.len() ==> buf[i] == self.byte
        &&& next == self
        &&& after == cx
    }

    fn poll_read(&mut self, cx: &mut Context, buf: &mut [u8]) -> (r: Poll<Result<usize, Error>>) {
        let byte: u8 = self.byte;
        let len: usize = buf.len();
        let mut i: usize = 0;
        while i < len
            invariant
                i <= len,
                len == buf@.len(),
                buf@.len() == old(buf)@.len(),
                forall|j: int| 0 <= j < i ==> buf@[j] == byte,
            decreases len - i,
        {
            buf[i] = byte;
            i = i + 1;
        }
        Poll::Ready(Ok(len))
    }
}

/// Has no bytes.
pub struct Empty {}

pub fn empty() -> (r: Empty)
    ensures
        r.wf(),
{
    Empty {  }
}

impl Io for Empty {
    open spec fn wf(&self) -> bool {
        true
    }
}

impl AsyncRead for Empty {
    open spec fn endless(&self) -> bool {
        false
    }

    open spec fn pace(&self) -> nat {
        0
    }

    open spec fn reads(
        self,
        cx: Context,
        room: Seq<u8>,
        r: Poll<Result<usize, Error>>,
        next: Self,
        buf: Seq<u8>,
        after: Context,
    ) -> bool {
        &&& r == Poll::Ready(Ok::<usize, Error>(0))
        &&& buf == room
        &&& after == cx
    }

    fn poll_read(&mut self, cx: &mut Context, buf: &mut [u8]) -> (r: Poll<Result<usize, Error>>) {
        Poll::Ready(Ok(0))
    }
}

impl AsyncBufRead for Empty {
    open spec fn held(&self) -> Seq<u8> {
        Seq::empty()
    }

    open spec fn fills(
        self,
        cx: Context,
        r: Poll<Result<Seq<u8>, Error>>,
        next: Self,
        after: Context,
    ) -> bool {
        &&& r == Poll::Ready(Ok::<Seq<u8>, Error>(Seq::empty()))
        &&& after == cx
    }

    open spec fn consumes(self, amount: nat, next: Self) -> bool {
        next == self
    }

    open spec fn tolerates(&self, amount: nat) -> bool {
        true
    }

    fn poll_fill_buf(&mut self, cx: &mut Context) -> (r: Poll<Result<&[u8], Error>>) {
        let none: &[u8] = &[];
        assert(none@ =~= Seq::<u8>::empty());
        Poll::Ready(Ok(none))
    }

    fn consume(&mut self, amount: usize) {
    }
}

/// Takes any bytes and forgets them.
#[derive(Debug)]
pub struct Sink {}

pub fn sink() -> (r: Sink)
    ensures
        r.wf(),
{
    Sink {  }
}

impl Io for Sink {
    open spec fn wf(&self) -> bool {
        true
    }
}

impl AsyncWrite for Sink {
    open spec fn stamina(&self) -> nat {
        0
    }

    open spec fn patience(&self) -> nat {
        0
    }

    proof fn lemma_patience(&self) {
    }

    open spec fn writes(
        self,
        cx: Context,
        buf: Seq<u8>,
        r: Poll<Result<usize, Error>>,
        next: Self,
        after: Context,
    ) -> bool {
        r == Poll::Ready(Ok::<usize, Error>(buf.len() as usize)) && after == cx
    }

    open spec fn flushes(
        self,
        cx: Context,
        r: Poll<Result<(), Error>>,
        next: Self,
        after: Context,
    ) -> bool {
        r == Poll::Ready(Ok::<(), Error>(())) && after == cx
    }

    open spec fn closes(
        self,
        cx: Context,
        r: Poll<Result<(), Error>>,
        next: Self,
        after: Context,
    ) -> bool {
        r == Poll::Ready(Ok::<(), Error>(())) && after == cx
    }

    fn poll_write(&mut self, cx: &mut Context, buf: &[u8]) -> (r: Poll<Result<usize, Error>>) {
        Poll::Ready(Ok(buf.len()))
    }

    fn poll_flush(&mut self, cx: &mut Context) -> (r: Poll<Result<(), Error>>) {
        Poll::Ready(Ok(()))
    }

    fn poll_close(&mut self, cx: &mut Context) -> (r: Poll<Result<(), Error>>) {
        Poll::Ready(Ok(()))
    }
}

/// Makes something blocking out of something that does not block.
#[derive(Debug)]
pub struct BlockOn<T>(pub T);

impl<T> BlockOn<T> {
    pub fn new(io: T) -> (r: BlockOn<T>)
        ensures
            r.0 == io,
    {
        BlockOn(io)
    }

    pub fn get_ref(&self) -> (r: &T)
        ensures
            *r == self.0,
    {
        &self.0
    }

    pub fn get_mut(&mut self) -> (r: &mut T)
        ensures
            *r == old(self).0,
            final(self).0 == *final(r),
    {
        &mut self.0
    }

    pub fn into_inner(self) -> (r: T)
        ensures
            r == self.0,
    {
        self.0
    }
}

/// What repeats a byte fills all the room there is with it, without an end.
pub proof fn law_repeats(
    repeat: Repeat,
    cx: Context,
    room: Seq<u8>,
    r: Poll<Result<usize, Error>>,
    next: Repeat,
    buf: Seq<u8>,
    after: Context,
)
    requires
        room.len() <= usize::MAX,
        repeat.reads(cx, room, r, next, buf, after),
    ensures
        r matches Poll::Ready(Ok(n)) && n == room.len(),
        buf.len() == room.len(),
        forall|i: int| 0 <= i < buf.len() ==> buf[i] == repeat.byte,
        next.byte == repeat.byte,
{
}

/// What is empty ends at once, read directly or through its buffer, and leaves the room as it was.
pub proof fn law_is_empty(
    empty: Empty,
    cx: Context,
    room: Seq<u8>,
    r: Poll<Result<usize, Error>>,
    next: Empty,
    buf: Seq<u8>,
    after: Context,
    shown: Poll<Result<Seq<u8>, Error>>,
)
    requires
        empty.reads(cx, room, r, next, buf, after),
        empty.fills(cx, shown, next, after),
    ensures
        r matches Poll::Ready(Ok(n)) && n == 0,
        buf == room,
        shown matches Poll::Ready(Ok(bytes)) && bytes.len() == 0,
        empty.held().len() == 0,
{
}

/// What forgets all bytes takes all of them, and has nothing to flush or to close.
pub proof fn law_takes_all(
    sink: Sink,
    cx: Context,
    buf: Seq<u8>,
    r: Poll<Result<usize, Error>>,
    flushed: Poll<Result<(), Error>>,
    closed: Poll<Result<(), Error>>,
    next: Sink,
    after: Context,
)
    requires
        buf.len() <= usize::MAX,
        sink.writes(cx, buf, r, next, after),
        sink.flushes(cx, flushed, next, after),
        sink.closes(cx, closed, next, after),
    ensures
        r matches Poll::Ready(Ok(n)) && n == buf.len(),
        flushed matches Poll::Ready(Ok(_)),
        closed matches Poll::Ready(Ok(_)),
{
}

} // verus!
