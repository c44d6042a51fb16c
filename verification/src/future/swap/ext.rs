//! What can be done with anything that is read, written or sought.

use vstd::prelude::*;
use crate::future::swap::adapters::{Bytes, Chain, Take};
use crate::future::swap::lines::{FillBuf, Lines, ReadLineFuture, ReadUntilFuture, Split};
use crate::future::swap::read::{
    ReadExactFuture,
    ReadFuture,
    ReadToEndFuture,
    ReadToStringFuture,
};
use crate::future::swap::traits::{AsyncBufRead, AsyncRead, AsyncSeek, AsyncWrite};
use crate::future::swap::vectored::{ReadVectoredFuture, WriteVectoredFuture};
use crate::future::swap::write::{
    CloseFuture,
    FlushFuture,
    SeekFuture,
    WriteAllFuture,
    WriteFuture,
};
use crate::io::stream::SeekFrom;

verus! {

/// What can be done with anything that is read through a buffer of its own.
pub trait AsyncBufReadExt: AsyncBufRead {
    /// Waits until the buffer has something to show.
    fn fill_buf(&self) -> (r: FillBuf)
        ensures
            !r.done,
    {
        FillBuf { done: false }
    }

    /// Reads up to a byte.
    fn read_until(&self, byte: u8) -> (r: ReadUntilFuture)
        ensures
            r.byte == byte,
            r.read == 0,
    {
        ReadUntilFuture { byte, read: 0 }
    }

    /// Reads a line.
    fn read_line(&self) -> (r: ReadLineFuture)
        ensures
            r.bytes@ == Seq::<u8>::empty(),
            r.read == 0,
    {
        ReadLineFuture { bytes: Vec::new(), read: 0 }
    }

    /// The lines, one after the other.
    fn lines(self) -> (r: Lines<Self>)
        ensures
            r.reader == self,
            r.buf@ == Seq::<char>::empty(),
            r.bytes@ == Seq::<u8>::empty(),
            r.read == 0,
    {
        Lines { reader: self, buf: String::new(), bytes: Vec::new(), read: 0 }
    }

    /// The parts between bytes that equal `byte`, one after the other.
    fn split(self, byte: u8) -> (r: Split<Self>)
        ensures
            r.reader == self,
            r.buf@ == Seq::<u8>::empty(),
            r.delim == byte,
            r.read == 0,
    {
        Split { reader: self, buf: Vec::new(), read: 0, delim: byte }
    }
}

impl<R: AsyncBufRead> AsyncBufReadExt for R {

}

/// What can be done with anything that is read.
pub trait AsyncReadExt: AsyncRead {
    /// Reads some bytes.
    fn read(&self) -> ReadFuture {
        ReadFuture {  }
    }

    /// Reads some bytes into several buffers.
    fn read_vectored(&self) -> ReadVectoredFuture {
        ReadVectoredFuture {  }
    }

    /// Reads to the end, and appends that to `buf`.
    fn read_to_end(&self, buf: &Vec<u8>) -> (r: ReadToEndFuture)
        ensures
            r.start_len == buf@.len(),
    {
        ReadToEndFuture { start_len: buf.len() }
    }

    /// Reads a text to its end.
    fn read_to_string(&self) -> (r: ReadToStringFuture)
        ensures
            r.bytes@ == Seq::<u8>::empty(),
            r.start_len == 0,
    {
        ReadToStringFuture { bytes: Vec::new(), start_len: 0 }
    }

    /// Reads as many bytes as there is room for.
    fn read_exact(&self) -> (r: ReadExactFuture)
        ensures
            r.filled == 0,
    {
        ReadExactFuture { filled: 0 }
    }

    /// Reads at most so many bytes.
    fn take(self, limit: u64) -> (r: Take<Self>)
        ensures
            r == (Take { inner: self, limit }),
    {
        Take { inner: self, limit }
    }

    /// The bytes, one after the other.
    fn bytes(self) -> (r: Bytes<Self>)
        ensures
            r == (Bytes { inner: self }),
    {
        Bytes { inner: self }
    }

    /// Reads this to its end and then `next`.
    fn chain<R: AsyncRead>(self, next: R) -> (r: Chain<Self, R>)
        ensures
            r == (Chain { first: self, second: next, done_first: false }),
    {
        Chain { first: self, second: next, done_first: false }
    }
}

impl<R: AsyncRead> AsyncReadExt for R {

}

/// What can be done with anything that has a position.
pub trait AsyncSeekExt: AsyncSeek {
    /// Goes to a position.
    fn seek(&self, pos: SeekFrom) -> (r: SeekFuture)
        ensures
            r.pos == pos,
    {
        SeekFuture { pos }
    }
}

impl<S: AsyncSeek> AsyncSeekExt for S {

}

/// What can be done with anything that is written.
pub trait AsyncWriteExt: AsyncWrite {
    /// Writes some bytes.
    fn write(&self) -> WriteFuture {
        WriteFuture {  }
    }

    /// Writes some bytes from several buffers.
    fn write_vectored(&self) -> WriteVectoredFuture {
        WriteVectoredFuture {  }
    }

    /// Writes all of something.
    fn write_all(&self) -> (r: WriteAllFuture)
        ensures
            r.written == 0,
    {
        WriteAllFuture { written: 0 }
    }

    /// Flushes.
    fn flush(&self) -> FlushFuture {
        FlushFuture {  }
    }

    /// Closes.
    fn close(&self) -> CloseFuture {
        CloseFuture {  }
    }
}

impl<W: AsyncWrite> AsyncWriteExt for W {

}

} // verus!
