//! A file that is read ahead and written behind.

use vstd::prelude::*;
use crate::future::future::continues;
use crate::future::swap::traits::{AsyncRead, AsyncSeek, AsyncWrite, Io, Positioned};
use crate::future::swap::vectored::{read_first, reads_first, AsyncReadVectored};
use crate::io::error::Error;
use crate::io::stream::SeekFrom;
use crate::task::{Context, Poll};

verus! {

/// A file. What is behind it reads ahead, so after reading its position is not where the reader
/// believes to be.
pub struct File<U> {
    pub unblock: U,
    /// Where the reader believes to be, if something was read since the position was last set.
    pub read_pos: Option<Result<u64, Error>>,
    /// Something was written since the file was last flushed.
    pub is_dirty: bool,
}

impl<U: Io> Io for File<U> {
    open spec fn wf(&self) -> bool {
        self.unblock.wf()
    }
}

impl<U> File<U> {
    pub fn new(unblock: U, is_dirty: bool) -> (r: File<U>)
        ensures
            r.unblock == unblock,
            r.read_pos is None,
            r.is_dirty == is_dirty,
    {
        File { unblock, read_pos: None, is_dirty }
    }
}

impl<U: AsyncSeek> File<U> {
    /// Bringing the position back to where the reader believes to be gives `r`.
    pub open spec fn repositions(
        self,
        cx: Context,
        r: Poll<Result<(), Error>>,
        next: Self,
        after: Context,
    ) -> bool {
        &&& next.is_dirty == self.is_dirty
        &&& match self.read_pos {
            Some(Ok(pos)) => exists|sought: Poll<Result<u64, Error>>|
                {
                    &&& #[trigger] self.unblock.seeks(
                        cx,
                        SeekFrom::Start(pos),
                        sought,
                        next.unblock,
                        after,
                    )
                    &&& match sought {
                        Poll::Ready(Ok(_)) => {
                            r == Poll::Ready(Ok::<(), Error>(())) && next.read_pos is None
                        },
                        Poll::Ready(Err(e)) => {
                            &&& r == Poll::Ready(Err::<(), Error>(e))
                            &&& next.read_pos == self.read_pos
                        },
                        Poll::Pending => r is Pending && next.read_pos == self.read_pos,
                    }
                },
            _ => {
                &&& r == Poll::Ready(Ok::<(), Error>(()))
                &&& next.read_pos is None
                &&& next.unblock == self.unblock
                &&& after == cx
            },
        }
    }

    /// Brings the position back to where the reader believes to be.
    fn poll_reposition(&mut self, cx: &mut Context) -> (r: Poll<Result<(), Error>>)
        requires
            old(self).wf(),
        ensures
            final(self).wf(),
            old(self).repositions(*old(cx), r, *final(self), *final(cx)),
            continues(*old(cx), *final(cx)),
    {
        let at: Option<u64> = match &self.read_pos {
            Some(Ok(pos)) => Some(*pos),
            _ => None,
        };
        if let Some(pos) = at {
            let sought = self.unblock.poll_seek(cx, SeekFrom::Start(pos));
            assert(old(self).unblock.seeks(
                *old(cx),
                SeekFrom::Start(pos),
                sought,
                self.unblock,
                *cx,
            ));
            match sought {
                Poll::Pending => return Poll::Pending,
                Poll::Ready(Err(e)) => {
                    assert(old(self).unblock.seeks(
                        *old(cx),
                        SeekFrom::Start(pos),
                        Poll::Ready(Err(e)),
                        self.unblock,
                        *cx,
                    ));
                    return Poll::Ready(Err(e));
                },
                Poll::Ready(Ok(_)) => {},
            }
        }
        self.read_pos = None;
        Poll::Ready(Ok(()))
    }

    /// The position was brought back, which gave `first` and led to `mid`, and then set.
    pub open spec fn set_position(
        self,
        cx: Context,
        pos: SeekFrom,
        first: Poll<Result<(), Error>>,
        mid: Self,
        between: Context,
        r: Poll<Result<u64, Error>>,
        next: Self,
        after: Context,
    ) -> bool {
        &&& self.repositions(cx, first, mid, between)
        &&& match first {
            Poll::Ready(Ok(_)) => {
                &&& mid.unblock.seeks(between, pos, r, next.unblock, after)
                &&& next.read_pos == mid.read_pos
                &&& next.is_dirty == mid.is_dirty
            },
            Poll::Ready(Err(e)) => {
                &&& r == Poll::Ready(Err::<u64, Error>(e))
                &&& next == mid
                &&& after == between
            },
            Poll::Pending => r is Pending && next == mid && after == between,
        }
    }
}

impl<U: AsyncSeek> AsyncSeek for File<U> {
    open spec fn seeks(
        self,
        cx: Context,
        pos: SeekFrom,
        r: Poll<Result<u64, Error>>,
        next: Self,
        after: Context,
    ) -> bool {
        exists|first: Poll<Result<(), Error>>, mid: Self, between: Context| #[trigger]
            self.set_position(cx, pos, first, mid, between, r, next, after)
    }

    fn poll_seek(&mut self, cx: &mut Context, pos: SeekFrom) -> (r: Poll<Result<u64, Error>>) {
        let first = self.poll_reposition(cx);
        let ghost mid = *self;
        let ghost between = *cx;
        match first {
            Poll::Pending => {
                assert(old(self).set_position(
                    *old(cx),
                    pos,
                    Poll::Pending,
                    mid,
                    between,
                    Poll::Pending,
                    *self,
                    *cx,
                ));
                Poll::Pending
            },
            Poll::Ready(Err(e)) => {
                let r = Poll::Ready(Err(e));
                assert(old(self).set_position(
                    *old(cx),
                    pos,
                    Poll::Ready(Err(e)),
                    mid,
                    between,
                    r,
                    *self,
                    *cx,
                ));
                r
            },
            Poll::Ready(Ok(done)) => {
                let r = self.unblock.poll_seek(cx, pos);
                assert(old(self).set_position(
                    *old(cx),
                    pos,
                    Poll::Ready(Ok(done)),
                    mid,
                    between,
                    r,
                    *self,
                    *cx,
                ));
                r
            },
        }
    }
}

impl<U: Positioned> File<U> {
    /// Something was read, which gave `r`, and the reader has moved on by that much.
    pub open spec fn read_on(
        self,
        cx: Context,
        room: Seq<u8>,
        r: Poll<Result<usize, Error>>,
        next: Self,
        buf: Seq<u8>,
        after: Context,
    ) -> bool {
        &&& self.unblock.reads(cx, room, r, next.unblock, buf, after)
        &&& next.is_dirty == self.is_dirty
        &&& next.read_pos == (match (r, self.read_pos) {
            (Poll::Ready(Ok(n)), Some(Ok(pos))) => Some(
                Ok::<u64, Error>(pos.wrapping_add(n as u64)),
            ),
            _ => self.read_pos,
        })
    }

    /// The position was asked for, which gave `sought` and led to `mid`, and then something was
    /// read.
    pub open spec fn asked_and_read(
        self,
        cx: Context,
        room: Seq<u8>,
        sought: Poll<Result<u64, Error>>,
        mid: Self,
        between: Context,
        r: Poll<Result<usize, Error>>,
        next: Self,
        buf: Seq<u8>,
        after: Context,
    ) -> bool {
        &&& self.unblock.seeks(cx, SeekFrom::Current(0), sought, mid.unblock, between)
        &&& mid.is_dirty == self.is_dirty
        &&& match sought {
            Poll::Pending => {
                &&& r is Pending
                &&& mid.read_pos is None
                &&& next == mid
                &&& buf == room
                &&& after == between
            },
            Poll::Ready(res) => {
                &&& mid.read_pos == Some(res)
                &&& mid.read_on(between, room, r, next, buf, after)
            },
        }
    }
}

impl<U: Positioned> AsyncRead for File<U> {
    open spec fn endless(&self) -> bool {
        self.unblock.endless()
    }

    open spec fn pace(&self) -> nat {
        self.unblock.pace()
    }

    /// Before the first read the position is asked for; whether that fails or not, something is
    /// read.
    open spec fn reads(
        self,
        cx: Context,
        room: Seq<u8>,
        r: Poll<Result<usize, Error>>,
        next: Self,
        buf: Seq<u8>,
        after: Context,
    ) -> bool {
        if self.read_pos is None {
            exists|sought: Poll<Result<u64, Error>>, mid: Self, between: Context| #[trigger]
                self.asked_and_read(cx, room, sought, mid, between, r, next, buf, after)
        } else {
            self.read_on(cx, room, r, next, buf, after)
        }
    }

    fn poll_read(&mut self, cx: &mut Context, buf: &mut [u8]) -> (r: Poll<Result<usize, Error>>) {
        let ghost asked = self.read_pos is None;
        let ghost mut sought: Poll<Result<u64, Error>> = Poll::Pending;
        if self.read_pos.is_none() {
            let res = self.unblock.poll_seek(cx, SeekFrom::Current(0));
            proof {
                old(self).unblock.lemma_told(*old(cx), res, self.unblock, *cx);
            }
            match res {
                Poll::Pending => {
                    assert(old(self).asked_and_read(
                        *old(cx),
                        old(buf)@,
                        Poll::Pending,
                        *self,
                        *cx,
                        Poll::Pending,
                        *self,
                        buf@,
                        *cx,
                    ));
                    return Poll::Pending;
                },
                Poll::Ready(res) => {
                    proof {
                        sought = Poll::Ready(res);
                    }
                    self.read_pos = Some(res);
                },
            }
        }
        let ghost mid = *self;
        let ghost between = *cx;
        let r = self.unblock.poll_read(cx, buf);
        match r {
            Poll::Ready(Ok(n)) => {
                let moved: Option<u64> = match &self.read_pos {
                    Some(Ok(pos)) => Some(pos.wrapping_add(n as u64)),
                    _ => None,
                };
                if let Some(pos) = moved {
                    self.read_pos = Some(Ok(pos));
                }
            },
            _ => {},
        }
        proof {
            assert(mid.read_on(between, old(buf)@, r, *self, buf@, *cx));
            if asked {
                assert(old(self).asked_and_read(
                    *old(cx),
                    old(buf)@,
                    sought,
                    mid,
                    between,
                    r,
                    *self,
                    buf@,
                    *cx,
                ));
            }
        }
        r
    }
}

impl<U: Positioned> AsyncReadVectored for File<U> {
    /// It is handed the first buffer that is not empty.
    open spec fn reads_vectored(
        self,
        cx: Context,
        lens: Seq<nat>,
        room: Seq<u8>,
        r: Poll<Result<usize, Error>>,
        next: Self,
        buf: Seq<u8>,
        after: Context,
    ) -> bool {
        reads_first(self, cx, lens, room, r, next, buf, after)
    }

    fn poll_read_vectored(&mut self, cx: &mut Context, bufs: &mut Vec<Vec<u8>>) -> (r: Poll<
        Result<usize, Error>,
    >) {
        read_first(self, cx, bufs)
    }
}

impl<U: AsyncWrite + AsyncSeek> File<U> {
    /// The position was brought back, which gave `first` and led to `mid`, and then something was
    /// written.
    pub open spec fn wrote(
        self,
        cx: Context,
        buf: Seq<u8>,
        first: Poll<Result<(), Error>>,
        mid: Self,
        between: Context,
        r: Poll<Result<usize, Error>>,
        next: Self,
        after: Context,
    ) -> bool {
        &&& self.repositions(cx, first, mid, between)
        &&& match first {
            Poll::Ready(Ok(_)) => {
                &&& mid.unblock.writes(between, buf, r, next.unblock, after)
                &&& next.read_pos == mid.read_pos
                &&& next.is_dirty
            },
            Poll::Ready(Err(e)) => {
                &&& r == Poll::Ready(Err::<usize, Error>(e))
                &&& next == mid
                &&& after == between
            },
            Poll::Pending => r is Pending && next == mid && after == between,
        }
    }

    /// Asks for something to be written.
    pub fn poll_write(&mut self, cx: &mut Context, buf: &[u8]) -> (r: Poll<Result<usize, Error>>)
        requires
            old(self).wf(),
        ensures
            final(self).wf(),
            exists|first: Poll<Result<(), Error>>, mid: Self, between: Context| #[trigger]
                old(self).wrote(
                    *old(cx),
                    buf@,
                    first,
                    mid,
                    between,
                    r,
                    *final(self),
                    *final(cx),
                ),
            continues(*old(cx), *final(cx)),
            r matches Poll::Ready(Ok(n)) ==> n <= buf@.len(),
    {
        let first = self.poll_reposition(cx);
        let ghost mid = *self;
        let ghost between = *cx;
        match first {
            Poll::Pending => {
                assert(old(self).wrote(
                    *old(cx),
                    buf@,
                    Poll::Pending,
                    mid,
                    between,
                    Poll::Pending,
                    *self,
                    *cx,
                ));
                Poll::Pending
            },
            Poll::Ready(Err(e)) => {
                let r = Poll::Ready(Err(e));
                assert(old(self).wrote(
                    *old(cx),
                    buf@,
                    Poll::Ready(Err(e)),
                    mid,
                    between,
                    r,
                    *self,
                    *cx,
                ));
                r
            },
            Poll::Ready(Ok(done)) => {
                self.is_dirty = true;
                let r = self.unblock.poll_write(cx, buf);
                assert(old(self).wrote(
                    *old(cx),
                    buf@,
                    Poll::Ready(Ok(done)),
                    mid,
                    between,
                    r,
                    *self,
                    *cx,
                ));
                r
            },
        }
    }

    /// Sees to it that what was written has arrived. There is nothing to do if nothing was
    /// written.
    pub fn poll_flush(&mut self, cx: &mut Context) -> (r: Poll<Result<(), Error>>)
        requires
            old(self).wf(),
        ensures
            final(self).wf(),
            continues(*old(cx), *final(cx)),
            final(self).read_pos == old(self).read_pos,
            if old(self).is_dirty {
                &&& old(self).unblock.flushes(*old(cx), r, final(self).unblock, *final(cx))
                &&& final(self).is_dirty == !(r matches Poll::Ready(Ok(_)))
            } else {
                &&& r == Poll::Ready(Ok::<(), Error>(()))
                &&& *final(self) == *old(self)
                &&& *final(cx) == *old(cx)
            },
    {
        if self.is_dirty {
            let r = self.unblock.poll_flush(cx);
            match r {
                Poll::Ready(Ok(_)) => {
                    self.is_dirty = false;
                },
                _ => {},
            }
            return r;
        }
        Poll::Ready(Ok(()))
    }

    /// Closes the file.
    pub fn poll_close(&mut self, cx: &mut Context) -> (r: Poll<Result<(), Error>>)
        requires
            old(self).wf(),
        ensures
            final(self).wf(),
            continues(*old(cx), *final(cx)),
            old(self).unblock.closes(*old(cx), r, final(self).unblock, *final(cx)),
            final(self).read_pos == old(self).read_pos,
            final(self).is_dirty == old(self).is_dirty,
    {
        self.unblock.poll_close(cx)
    }
}

/// What is written after something was read goes where the reader believes to be, not where the
/// file was read ahead to: unless the position cannot be set, it is set there before.
pub proof fn law_written_where_read<U: AsyncWrite + AsyncSeek>(
    file: File<U>,
    at: u64,
    cx: Context,
    buf: Seq<u8>,
    first: Poll<Result<(), Error>>,
    mid: File<U>,
    between: Context,
    n: usize,
    next: File<U>,
    after: Context,
)
    requires
        file.read_pos == Some(Ok::<u64, Error>(at)),
        file.wrote(cx, buf, first, mid, between, Poll::Ready(Ok(n)), next, after),
    ensures
        exists|sought: Poll<Result<u64, Error>>|
            {
                &&& #[trigger] file.unblock.seeks(
                    cx,
                    SeekFrom::Start(at),
                    sought,
                    mid.unblock,
                    between,
                )
                &&& sought matches Poll::Ready(Ok(_))
            },
        mid.unblock.writes(between, buf, Poll::Ready(Ok(n)), next.unblock, after),
        next.read_pos is None,
{
}

/// Where something was read, the position is brought back before it is set or something is written:
/// to where the reader believes to be. If that fails, its error is told and nothing else is done; and
/// the reader still believes to be there, until it has succeeded.
pub proof fn law_brought_back<U: AsyncSeek>(
    file: File<U>,
    cx: Context,
    r: Poll<Result<(), Error>>,
    next: File<U>,
    after: Context,
)
    requires
        file.repositions(cx, r, next, after),
    ensures
        file.read_pos matches Some(Ok(at)) ==> exists|sought: Poll<Result<u64, Error>>|
            {
                &&& #[trigger] file.unblock.seeks(
                    cx,
                    SeekFrom::Start(at),
                    sought,
                    next.unblock,
                    after,
                )
                &&& r is Pending <==> sought is Pending
                &&& r matches Poll::Ready(Err(e)) ==> sought == Poll::Ready(Err::<u64, Error>(e))
                &&& (r matches Poll::Ready(Ok(_))) <==> (sought matches Poll::Ready(Ok(_)))
            },
        !(file.read_pos matches Some(Ok(_))) ==> r == Poll::Ready(Ok::<(), Error>(()))
            && next.unblock == file.unblock,
        r matches Poll::Ready(Ok(_)) ==> next.read_pos is None,
        !(r matches Poll::Ready(Ok(_))) ==> next.read_pos == file.read_pos,
        next.is_dirty == file.is_dirty,
{
}

/// The reader moves on by what was read, and by nothing else; before the first read it is asked where
/// the file is, and if that takes time, nothing is read yet.
pub proof fn law_reader_moves_on<U: Positioned>(
    file: File<U>,
    cx: Context,
    room: Seq<u8>,
    r: Poll<Result<usize, Error>>,
    next: File<U>,
    buf: Seq<u8>,
    after: Context,
    at: u64,
)
    requires
        file.reads(cx, room, r, next, buf, after),
    ensures
        next.is_dirty == file.is_dirty,
        file.read_pos == Some(Ok::<u64, Error>(at)) ==> {
            &&& file.unblock.reads(cx, room, r, next.unblock, buf, after)
            &&& r matches Poll::Ready(Ok(n)) ==> next.read_pos == Some(
                Ok::<u64, Error>(at.wrapping_add(n as u64)),
            )
            &&& !(r matches Poll::Ready(Ok(_))) ==> next.read_pos == file.read_pos
        },
        file.read_pos is None && next.read_pos is None ==> r is Pending && buf == room,
        file.read_pos is None && next.read_pos is Some ==> exists|
            told: Result<u64, Error>,
            unblock: U,
            between: Context,
        |
            {
                &&& #[trigger] file.unblock.seeks(
                    cx,
                    SeekFrom::Current(0),
                    Poll::Ready(told),
                    unblock,
                    between,
                )
                &&& unblock.reads(between, room, r, next.unblock, buf, after)
                &&& told matches Ok(p) ==> next.read_pos == Some(
                    Ok::<u64, Error>(
                        match r {
                            Poll::Ready(Ok(n)) => p.wrapping_add(n as u64),
                            _ => p,
                        },
                    ),
                )
            },
{
    if file.read_pos is None {
        let (sought, mid, between) = choose|
            sought: Poll<Result<u64, Error>>,
            mid: File<U>,
            between: Context,
        | #[trigger]
            file.asked_and_read(cx, room, sought, mid, between, r, next, buf, after);
        if let Poll::Ready(told) = sought {
            assert(file.unblock.seeks(
                cx,
                SeekFrom::Current(0),
                Poll::Ready(told),
                mid.unblock,
                between,
            ));
        }
    }
}

/// What is written is marked until it is flushed; nothing is written where the position could not be
/// brought back, and its error is told. The same goes for setting the position.
pub proof fn law_written_or_told<U: AsyncWrite + AsyncSeek>(
    file: File<U>,
    cx: Context,
    buf: Seq<u8>,
    first: Poll<Result<(), Error>>,
    mid: File<U>,
    between: Context,
    r: Poll<Result<usize, Error>>,
    next: File<U>,
    after: Context,
)
    requires
        file.wrote(cx, buf, first, mid, between, r, next, after),
    ensures
        file.repositions(cx, first, mid, between),
        first matches Poll::Ready(Ok(_)) ==> mid.unblock.writes(
            between,
            buf,
            r,
            next.unblock,
            after,
        ) && next.is_dirty && next.read_pos is None,
        first matches Poll::Ready(Err(e)) ==> r == Poll::Ready(Err::<usize, Error>(e))
            && next.unblock == mid.unblock && next.is_dirty == file.is_dirty,
        first is Pending ==> r is Pending && next.unblock == mid.unblock && next.is_dirty
            == file.is_dirty,
{
}

/// The position is set only once it was brought back, and an error of either is told.
pub proof fn law_position_set<U: AsyncSeek>(
    file: File<U>,
    cx: Context,
    pos: SeekFrom,
    first: Poll<Result<(), Error>>,
    mid: File<U>,
    between: Context,
    r: Poll<Result<u64, Error>>,
    next: File<U>,
    after: Context,
)
    requires
        file.set_position(cx, pos, first, mid, between, r, next, after),
    ensures
        file.repositions(cx, first, mid, between),
        first matches Poll::Ready(Ok(_)) ==> mid.unblock.seeks(
            between,
            pos,
            r,
            next.unblock,
            after,
        ) && next.read_pos is None,
        first matches Poll::Ready(Err(e)) ==> r == Poll::Ready(Err::<u64, Error>(e)) && next == mid,
        first is Pending ==> r is Pending && next == mid,
        next.is_dirty == file.is_dirty,
{
}

} // verus!
