//! Sources and sinks of bytes that block until they are done.

use vstd::prelude::*;
use crate::io::error::{Error, ErrorKind};

verus! {

/// A number that only contracts speak of. A type that is not verified needs its name to be a stream.
pub type Count = nat;

/// Bytes that only contracts speak of.
pub type ByteSeq = Seq<u8>;

/// The lesser of two numbers.
pub open spec fn smaller(a: nat, b: nat) -> nat {
    if a < b {
        a
    } else {
        b
    }
}

/// Where to go in something that has positions.
#[derive(Clone, Copy, Debug, PartialEq, Eq, Structural)]
pub enum SeekFrom {
    /// So far from the start.
    Start(u64),
    /// So far from the end.
    End(i64),
    /// So far from the present position.
    Current(i64),
}

/// The operation was broken off by a signal.
pub open spec fn broken_off<T>(r: Result<T, Error>) -> bool {
    r matches Err(e) && e.kind == ErrorKind::Interrupted
}

/// Something that bytes are read from.
pub trait Read: Sized {
    /// All bytes that were read so far.
    spec fn given(&self) -> Seq<u8>;

    /// There is nothing more to read.
    spec fn ended(&self) -> bool;

    /// Reading never fails.
    spec fn reliable(&self) -> bool;

    /// All bytes that there are to read, where that is settled.
    spec fn whole(&self) -> Option<Seq<u8>>;

    /// Bytes may come for ever.
    spec fn endless(&self) -> bool;

    /// How often at most there are bytes to read, unless they come for ever.
    spec fn pace(&self) -> nat;

    /// How often reading can be interrupted before it is not.
    spec fn patience(&self) -> nat;

    /// Reading into a buffer that holds `room` can give `r` and leave `next` and the buffer
    /// `buf` behind.
    spec fn reads(self, room: Seq<u8>, r: Result<usize, Error>, next: Self, buf: Seq<u8>) -> bool;

    /// Reads some bytes into the front of `buf`.
    fn read(&mut self, buf: &mut [u8]) -> (r: Result<usize, Error>)
        ensures
            final(buf)@.len() == old(buf)@.len(),
            old(self).reads(old(buf)@, r, *final(self), final(buf)@),
            broken_off(r) ==> final(self).patience() < old(self).patience(),
            final(self).endless() == old(self).endless(),
            broken_off(r) ==> final(self).pace() <= old(self).pace(),
            !old(self).endless() && (r matches Ok(n) && n > 0) ==> final(self).pace() < old(self).pace(),
            old(self).reliable() ==> r is Ok && final(self).reliable(),
            final(self).whole() == old(self).whole(),
            reads_whole(old(self).whole(), old(self).given(), old(self).ended()) ==> reads_whole(
                final(self).whole(),
                final(self).given(),
                final(self).ended(),
            ),
            match r {
                Ok(n) => {
                    &&& n <= old(buf)@.len()
                    &&& final(self).given() == old(self).given() + final(buf)@.take(n as int)
                    &&& n == 0 && old(buf)@.len() > 0 ==> final(self).ended()
                },
                Err(_) => final(self).given() == old(self).given(),
            },
    ;
}

/// What was read is the front of what there is to read, and all of it at the end.
pub open spec fn reads_whole(whole: Option<Seq<u8>>, given: Seq<u8>, ended: bool) -> bool {
    whole matches Some(whole) ==> {
        &&& given.is_prefix_of(whole)
        &&& ended ==> given == whole
    }
}

/// Something that bytes are written to.
pub trait Write: Sized {
    /// All bytes that were written so far.
    spec fn written(&self) -> Seq<u8>;

    /// No more bytes are taken.
    spec fn full(&self) -> bool;

    /// Writing never fails.
    spec fn reliable(&self) -> bool;

    /// How many bytes are taken at most in all, if there is a limit.
    spec fn limit(&self) -> Option<nat>;

    /// How often writing can be interrupted before it is not.
    spec fn patience(&self) -> nat;

    /// Writing the bytes `buf` can give `r` and leave `next` behind.
    spec fn writes(self, buf: Seq<u8>, r: Result<usize, Error>, next: Self) -> bool;

    /// Flushing can give `r` and leave `next` behind.
    spec fn flushes(self, r: Result<(), Error>, next: Self) -> bool;

    /// Writes some bytes from the front of `buf`.
    fn write(&mut self, buf: &[u8]) -> (r: Result<usize, Error>)
        ensures
            old(self).writes(buf@, r, *final(self)),
            broken_off(r) ==> final(self).patience() < old(self).patience(),
            old(self).reliable() ==> r is Ok && final(self).reliable(),
            final(self).limit() == old(self).limit(),
            old(self).limit() matches Some(limit) && old(self).written().len() <= limit ==> final(self).written().len() <= old(self).limit()->0,
            match r {
                Ok(n) => {
                    &&& n <= buf@.len()
                    &&& final(self).written() == old(self).written() + buf@.take(n as int)
                    &&& n == 0 && buf@.len() > 0 ==> final(self).full()
                },
                Err(_) => final(self).written() == old(self).written(),
            },
    ;

    /// Sees to it that what was written has arrived.
    fn flush(&mut self) -> (r: Result<(), Error>)
        ensures
            old(self).flushes(r, *final(self)),
            broken_off(r) ==> final(self).patience() < old(self).patience(),
            final(self).written() == old(self).written(),
    ;
}

/// Something that has a position.
pub trait Seek: Sized {
    /// How often seeking can be interrupted before it is not.
    spec fn seek_patience(&self) -> nat;

    /// Going to `pos` can give `r` and leave `next` behind.
    spec fn seeks(self, pos: SeekFrom, r: Result<u64, Error>, next: Self) -> bool;

    /// Goes to a position, and gives it as counted from the start.
    fn seek(&mut self, pos: SeekFrom) -> (r: Result<u64, Error>)
        ensures
            old(self).seeks(pos, r, *final(self)),
            broken_off(r) ==> final(self).seek_patience() < old(self).seek_patience(),
    ;
}

/// Reads from a run of bytes.
pub struct SliceReader<'a> {
    bytes: &'a [u8],
    pos: usize,
}

impl<'a> SliceReader<'a> {
    pub closed spec fn wf(&self) -> bool {
        self.pos <= self.bytes@.len()
    }

    /// The bytes that are left.
    pub closed spec fn rest(&self) -> Seq<u8> {
        self.bytes@.skip(self.pos as int)
    }

    /// How many bytes are left.
    pub closed spec fn left(&self) -> nat {
        if self.pos <= self.bytes@.len() {
            (self.bytes@.len() - self.pos) as nat
        } else {
            0
        }
    }

    pub fn new(bytes: &'a [u8]) -> (r: Self)
        ensures
            r.wf(),
            r.rest() == bytes@,
            r.given() == Seq::<u8>::empty(),
            r.whole() == Some(bytes@),
            reads_whole(r.whole(), r.given(), r.ended()),
    {
        let r = SliceReader { bytes, pos: 0 };
        assert(r.rest() =~= bytes@);
        assert(r.given() =~= Seq::<u8>::empty());
        r
    }
}

/// Copies `n` bytes from `src`, from `from` on, to the front of `dest`.
pub fn copy_bytes(src: &[u8], from: usize, dest: &mut [u8], to: usize, n: usize)
    requires
        from + n <= src@.len(),
        to + n <= old(dest)@.len(),
    ensures
        final(dest)@.len() == old(dest)@.len(),
        final(dest)@ == old(dest)@.take(to as int) + src@.subrange(from as int, from + n) + old(dest)@.skip(to + n),
{
    let mut i: usize = 0;
    assert(src.len() == src@.len() && dest.len() == dest@.len());
    while i < n
        invariant
            i <= n,
            from + n <= src@.len() <= usize::MAX,
            to + n <= dest@.len() <= usize::MAX,
            dest@.len() == old(dest)@.len(),
            forall|j: int|
                0 <= j < dest@.len() ==> dest@[j] == (if to <= j < to + i {
                    src@[from + (j - to)]
                } else {
                    old(dest)@[j]
                }),
        decreases n - i,
    {
        dest[to + i] = src[from + i];
        i = i + 1;
    }
    assert(dest@ =~= old(dest)@.take(to as int) + src@.subrange(from as int, from + n) + old(dest)@.skip(to + n));
}

impl<'a> Read for SliceReader<'a> {
    closed spec fn given(&self) -> Seq<u8> {
        if self.pos <= self.bytes@.len() {
            self.bytes@.take(self.pos as int)
        } else {
            Seq::empty()
        }
    }

    open spec fn reliable(&self) -> bool {
        true
    }

    closed spec fn whole(&self) -> Option<Seq<u8>> {
        Some(self.bytes@)
    }

    closed spec fn ended(&self) -> bool {
        self.pos >= self.bytes@.len()
    }

    open spec fn endless(&self) -> bool {
        false
    }

    open spec fn pace(&self) -> nat {
        self.left()
    }

    open spec fn patience(&self) -> nat {
        0
    }

    open spec fn reads(self, room: Seq<u8>, r: Result<usize, Error>, next: Self, buf: Seq<u8>) -> bool {
        self.wf() ==> {
            let n = smaller(self.rest().len(), room.len());
            &&& next.wf()
            &&& r == Ok::<usize, Error>(n as usize)
            &&& buf == self.rest().take(n as int) + room.skip(n as int)
            &&& next.rest() == self.rest().skip(n as int)
        }
    }

    fn read(&mut self, buf: &mut [u8]) -> (r: Result<usize, Error>)
        ensures
            r is Ok,
            (r->Ok_0) < old(buf)@.len() ==> final(self).ended(),
            final(buf)@.skip((r->Ok_0) as int) == old(buf)@.skip((r->Ok_0) as int),
    {
        if self.pos > self.bytes.len() {
            assert(old(self).given() + buf@.take(0) =~= old(self).given());
            return Ok(0);
        }
        let left: usize = self.bytes.len() - self.pos;
        let n: usize = if left < buf.len() {
            left
        } else {
            buf.len()
        };
        copy_bytes(self.bytes, self.pos, buf, 0, n);
        self.pos = self.pos + n;
        proof {
            assert(old(self).rest().take(n as int) =~= self.bytes@.subrange(
                old(self).pos as int,
                old(self).pos + n,
            ));
            assert(buf@ =~= old(self).rest().take(n as int) + old(buf)@.skip(n as int));
            assert(self.rest() =~= old(self).rest().skip(n as int));
            assert(self.given() =~= old(self).given() + buf@.take(n as int));
            assert(self.bytes@.take(self.bytes@.len() as int) =~= self.bytes@);
            assert(buf@.skip(n as int) =~= old(buf)@.skip(n as int));
        }
        Ok(n)
    }
}

/// Collects bytes up to a limit.
pub struct Collector {
    pub bytes: Vec<u8>,
    pub limit: usize,
}

impl Collector {
    /// How many bytes there is room for.
    pub open spec fn room(&self) -> nat {
        if self.bytes@.len() < self.limit {
            (self.limit - self.bytes@.len()) as nat
        } else {
            0
        }
    }

    pub fn new(limit: usize) -> (r: Self)
        ensures
            r.bytes@ == Seq::<u8>::empty(),
            r.limit == limit,
    {
        Collector { bytes: Vec::new(), limit }
    }
}

impl Write for Collector {
    open spec fn written(&self) -> Seq<u8> {
        self.bytes@
    }

    open spec fn reliable(&self) -> bool {
        true
    }

    open spec fn full(&self) -> bool {
        self.room() == 0
    }

    open spec fn limit(&self) -> Option<nat> {
        Some(self.limit as nat)
    }

    open spec fn patience(&self) -> nat {
        0
    }

    open spec fn writes(self, buf: Seq<u8>, r: Result<usize, Error>, next: Self) -> bool {
        let n = smaller(self.room(), buf.len());
        &&& r == Ok::<usize, Error>(n as usize)
        &&& next.bytes@ == self.bytes@ + buf.take(n as int)
        &&& next.limit == self.limit
    }

    open spec fn flushes(self, r: Result<(), Error>, next: Self) -> bool {
        r == Ok::<(), Error>(()) && next == self
    }

    fn write(&mut self, buf: &[u8]) -> (r: Result<usize, Error>)
        ensures
            r is Ok,
            (r->Ok_0) < buf@.len() ==> final(self).full(),
            old(self).bytes@.is_prefix_of(final(self).bytes@),
    {
        let room: usize = if self.bytes.len() < self.limit {
            self.limit - self.bytes.len()
        } else {
            0
        };
        let n: usize = if room < buf.len() {
            room
        } else {
            buf.len()
        };
        let (front, _) = buf.split_at(n);
        assert(front@ =~= buf@.take(n as int));
        self.bytes.extend_from_slice(front);
        assert(self.bytes@ =~= old(self).bytes@ + buf@.take(n as int));
        Ok(n)
    }

    fn flush(&mut self) -> (r: Result<(), Error>)
        ensures
            r is Ok,
    {
        Ok(())
    }
}

} // verus!
