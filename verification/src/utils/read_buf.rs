//! A buffer that is filled bit by bit.

use vstd::prelude::*;
use crate::io::stream::{copy_bytes, smaller};

verus! {

/// A buffer of which the front is filled, and the front of the rest is known to hold something.
pub struct ReadBuf<'a> {
    pub buf: &'a mut [u8],
    pub filled: usize,
    pub initialized: usize,
}

impl<'a> ReadBuf<'a> {
    /// What the buffer holds.
    pub open spec fn bytes(&self) -> Seq<u8> {
        self.buf@
    }

    /// What was filled is initialized.
    pub open spec fn wf(&self) -> bool {
        self.filled <= self.initialized <= self.bytes().len()
    }

    /// A buffer that holds something, of which nothing counts as filled.
    pub fn new(buf: &'a mut [u8]) -> (r: ReadBuf<'a>)
        ensures
            r.wf(),
            r.bytes() == old(buf)@,
            r.filled == 0,
            r.initialized == old(buf)@.len(),
            final(buf)@ == final(r.buf)@,
    {
        let initialized: usize = buf.len();
        ReadBuf { buf, filled: 0, initialized }
    }

    /// A buffer of which nothing is known.
    pub fn uninit(buf: &'a mut [u8]) -> (r: ReadBuf<'a>)
        ensures
            r.wf(),
            r.bytes() == old(buf)@,
            r.filled == 0,
            r.initialized == 0,
            final(buf)@ == final(r.buf)@,
    {
        ReadBuf { buf, filled: 0, initialized: 0 }
    }

    pub fn capacity(&self) -> (r: usize)
        ensures
            r == self.bytes().len(),
    {
        self.buf.len()
    }

    pub fn filled(&self) -> (r: &[u8])
        requires
            self.wf(),
        ensures
            r@ == self.bytes().take(self.filled as int),
    {
        let r = vstd::slice::slice_subrange(self.buf, 0, self.filled);
        assert(r@ =~= self.bytes().take(self.filled as int));
        r
    }

    pub fn initialized(&self) -> (r: &[u8])
        requires
            self.wf(),
        ensures
            r@ == self.bytes().take(self.initialized as int),
    {
        let r = vstd::slice::slice_subrange(self.buf, 0, self.initialized);
        assert(r@ =~= self.bytes().take(self.initialized as int));
        r
    }

    pub fn filled_mut(&mut self) -> (r: &mut [u8])
        requires
            old(self).wf(),
        ensures
            final(final(self).buf)@ == final(old(self).buf)@,
            r@ == old(self).bytes().take(old(self).filled as int),
            final(r)@.len() == r@.len() ==> final(self).bytes() == final(r)@ + old(self).bytes().skip(old(self).filled as int),
            final(self).filled == old(self).filled,
            final(self).initialized == old(self).initialized,
    {
        let filled: usize = self.filled;
        let (r, _) = self.buf.split_at_mut(filled);
        r
    }

    pub fn initialized_mut(&mut self) -> (r: &mut [u8])
        requires
            old(self).wf(),
        ensures
            final(final(self).buf)@ == final(old(self).buf)@,
            r@ == old(self).bytes().take(old(self).initialized as int),
            final(r)@.len() == r@.len() ==> final(self).bytes() == final(r)@ + old(self).bytes().skip(old(self).initialized as int),
            final(self).filled == old(self).filled,
            final(self).initialized == old(self).initialized,
    {
        let initialized: usize = self.initialized;
        let (r, _) = self.buf.split_at_mut(initialized);
        r
    }

    /// All bytes after those that were filled.
    pub fn unfilled_mut(&mut self) -> (r: &mut [u8])
        requires
            old(self).wf(),
        ensures
            final(final(self).buf)@ == final(old(self).buf)@,
            r@ == old(self).bytes().skip(old(self).filled as int),
            final(r)@.len() == r@.len() ==> final(self).bytes() == old(self).bytes().take(
                old(self).filled as int,
            ) + final(r)@,
            final(self).filled == old(self).filled,
            final(self).initialized == old(self).initialized,
    {
        let filled: usize = self.filled;
        let (_, r) = self.buf.split_at_mut(filled);
        r
    }

    /// A buffer of its own, made of at most so many bytes after those that were filled, and of
    /// which nothing is known.
    pub fn take(&mut self, n: usize) -> (r: ReadBuf<'_>)
        requires
            old(self).wf(),
        ensures
            final(final(self).buf)@ == final(old(self).buf)@,
            ({
                let from = old(self).filled as int;
                let to = from + smaller((old(self).bytes().len() - from) as nat, n as nat);
                &&& r.bytes() == old(self).bytes().subrange(from, to)
                &&& final(r.buf)@.len() == r.buf@.len() ==> {
                    &&& final(self).bytes() == old(self).bytes().take(from) + final(r.buf)@ + old(self).bytes().skip(to)
                    &&& final(self).wf()
                }
            }),
            r.wf(),
            r.filled == 0,
            r.initialized == 0,
            final(self).filled == old(self).filled,
            final(self).initialized == old(self).initialized,
    {
        let remaining: usize = self.remaining();
        let max: usize = if remaining < n {
            remaining
        } else {
            n
        };
        let rest = self.unfilled_mut();
        let (front, _) = rest.split_at_mut(max);
        ReadBuf::uninit(front)
    }

    pub fn remaining(&self) -> (r: usize)
        requires
            self.wf(),
        ensures
            r == self.bytes().len() - self.filled,
    {
        self.capacity() - self.filled
    }

    /// Nothing counts as filled any more.
    pub fn clear(&mut self)
        requires
            old(self).wf(),
        ensures
            final(final(self).buf)@ == final(old(self).buf)@,
            final(self).wf(),
            final(self).bytes() == old(self).bytes(),
            final(self).filled == 0,
            final(self).initialized == old(self).initialized,
    {
        self.filled = 0;
    }

    /// So many more bytes count as filled.
    pub fn advance(&mut self, n: usize)
        requires
            old(self).wf(),
            old(self).filled + n <= old(self).initialized,
        ensures
            final(final(self).buf)@ == final(old(self).buf)@,
            final(self).wf(),
            final(self).bytes() == old(self).bytes(),
            final(self).filled == old(self).filled + n,
            final(self).initialized == old(self).initialized,
    {
        let new: usize = self.filled + n;
        self.set_filled(new);
    }

    /// So many bytes count as filled.
    pub fn set_filled(&mut self, n: usize)
        requires
            old(self).wf(),
            n <= old(self).initialized,
        ensures
            final(final(self).buf)@ == final(old(self).buf)@,
            final(self).wf(),
            final(self).bytes() == old(self).bytes(),
            final(self).filled == n,
            final(self).initialized == old(self).initialized,
    {
        self.filled = n;
    }

    /// So many bytes after those that were filled are known to hold something.
    pub fn assume_init(&mut self, n: usize)
        requires
            old(self).wf(),
            old(self).filled + n <= old(self).bytes().len(),
        ensures
            final(final(self).buf)@ == final(old(self).buf)@,
            final(self).wf(),
            final(self).bytes() == old(self).bytes(),
            final(self).filled == old(self).filled,
            final(self).initialized == (if old(self).filled + n > old(self).initialized {
                old(self).filled + n
            } else {
                old(self).initialized as int
            }),
    {
        assert(self.buf.len() == self.bytes().len());
        let new: usize = self.filled + n;
        if new > self.initialized {
            self.initialized = new;
        }
    }

    /// Sees to it that so many bytes after those that were filled hold something: zeros, where
    /// nothing is known of them.
    fn initialize(&mut self, n: usize)
        requires
            old(self).wf(),
            old(self).filled + n <= old(self).bytes().len(),
        ensures
            final(final(self).buf)@ == final(old(self).buf)@,
            final(self).wf(),
            final(self).filled == old(self).filled,
            final(self).initialized == (if old(self).filled + n > old(self).initialized {
                old(self).filled + n
            } else {
                old(self).initialized as int
            }),
            final(self).bytes().len() == old(self).bytes().len(),
            forall|i: int|
                0 <= i < old(self).bytes().len() ==> #[trigger] final(self).bytes()[i] == (if old(self).initialized <= i < final(self).initialized {
                    0u8
                } else {
                    old(self).bytes()[i]
                }),
    {
        assert(self.buf.len() == self.bytes().len());
        let end: usize = self.filled + n;
        let ghost before = self.bytes();
        while self.initialized < end
            invariant
                old(self).wf(),
                before == old(self).bytes(),
                self.bytes().len() == before.len() <= usize::MAX,
                self.filled == old(self).filled,
                end <= before.len(),
                final(self.buf)@ == final(old(self).buf)@,
                old(self).initialized <= self.initialized <= before.len(),
                self.initialized <= end || self.initialized == old(self).initialized,
                forall|i: int|
                    0 <= i < before.len() ==> #[trigger] self.bytes()[i] == (if old(self).initialized
                        <= i < self.initialized {
                        0u8
                    } else {
                        before[i]
                    }),
            decreases end - self.initialized,
        {
            let at: usize = self.initialized;
            self.buf[at] = 0;
            self.initialized = at + 1;
        }
    }

    /// The buffer `before`, of which the bytes from `from` on up to `to` were made zeros.
    pub open spec fn zeroed(before: Seq<u8>, from: int, to: int) -> Seq<u8> {
        Seq::new(
            before.len(),
            |i: int|
                if from <= i < to {
                    0u8
                } else {
                    before[i]
                },
        )
    }

    /// So many bytes after those that were filled, which are made to hold something.
    pub fn initialize_unfilled_to(&mut self, n: usize) -> (r: &mut [u8])
        requires
            old(self).wf(),
            old(self).filled + n <= old(self).bytes().len(),
        ensures
            final(final(self).buf)@ == final(old(self).buf)@,
            ({
                let from = old(self).filled as int;
                let all = Self::zeroed(old(self).bytes(), old(self).initialized as int, from + n);
                &&& r@ == all.subrange(from, from + n)
                &&& final(r)@.len() == r@.len() ==> final(self).bytes() == all.take(from) + final(r)@ + all.skip(from + n)
            }),
            r@.len() == n,
            forall|i: int|
                0 <= i < n ==> #[trigger] r@[i] == (if old(self).filled + i < old(self).initialized {
                    old(self).bytes()[old(self).filled + i]
                } else {
                    0u8
                }),
            final(self).filled == old(self).filled,
            final(self).initialized == (if old(self).filled + n > old(self).initialized {
                old(self).filled + n
            } else {
                old(self).initialized as int
            }),
    {
        self.initialize(n);
        assert(self.bytes() =~= Self::zeroed(
            old(self).bytes(),
            old(self).initialized as int,
            old(self).filled + n,
        ));
        let filled: usize = self.filled;
        let (_, rest) = self.buf.split_at_mut(filled);
        let (r, _) = rest.split_at_mut(n);
        r
    }

    /// All bytes after those that were filled, which are made to hold something.
    pub fn initialize_unfilled(&mut self) -> (r: &mut [u8])
        requires
            old(self).wf(),
        ensures
            final(final(self).buf)@ == final(old(self).buf)@,
            ({
                let from = old(self).filled as int;
                let len = old(self).bytes().len() as int;
                let all = Self::zeroed(old(self).bytes(), old(self).initialized as int, len);
                &&& r@ == all.subrange(from, len)
                &&& final(r)@.len() == r@.len() ==> final(self).bytes() == all.take(from) + final(r)@ + all.skip(len)
            }),
            final(self).filled == old(self).filled,
            final(self).initialized == old(self).bytes().len(),
    {
        let n: usize = self.remaining();
        self.initialize_unfilled_to(n)
    }

    /// Puts bytes after those that were filled.
    pub fn put_slice(&mut self, buf: &[u8])
        requires
            old(self).wf(),
            old(self).filled + buf@.len() <= old(self).bytes().len(),
        ensures
            final(final(self).buf)@ == final(old(self).buf)@,
            final(self).wf(),
            final(self).filled == old(self).filled + buf@.len(),
            final(self).initialized == (if final(self).filled > old(self).initialized {
                final(self).filled
            } else {
                old(self).initialized
            }),
            final(self).bytes().len() == old(self).bytes().len(),
            final(self).bytes() == old(self).bytes().take(old(self).filled as int) + buf@ + old(self).bytes().skip(old(self).filled + buf@.len()),
    {
        assert(self.buf.len() == self.bytes().len());
        let amt: usize = buf.len();
        let end: usize = self.filled + amt;
        copy_bytes(buf, 0, self.buf, self.filled, amt);
        assert(buf@.subrange(0, amt as int) =~= buf@);
        if self.initialized < end {
            self.initialized = end;
        }
        self.filled = end;
    }
}

/// What was put is what is filled: putting bytes appends them to those that were filled.
pub proof fn law_put(before: Seq<u8>, filled: int, bytes: Seq<u8>, after: Seq<u8>)
    requires
        0 <= filled,
        filled + bytes.len() <= before.len(),
        after == before.take(filled) + bytes + before.skip(filled + bytes.len()),
    ensures
        after.take(filled + bytes.len()) == before.take(filled) + bytes,
{
    assert(after.take(filled + bytes.len()) =~= before.take(filled) + bytes);
}

/// Making zeros of some bytes leaves the others as they were.
pub proof fn law_zeroed(before: Seq<u8>, from: int, to: int, i: int)
    requires
        0 <= i < before.len(),
    ensures
        ReadBuf::zeroed(before, from, to).len() == before.len(),
        from <= i < to ==> ReadBuf::zeroed(before, from, to)[i] == 0,
        i < from || to <= i ==> ReadBuf::zeroed(before, from, to)[i] == before[i],
        ReadBuf::zeroed(ReadBuf::zeroed(before, from, to), from, to) == ReadBuf::zeroed(
            before,
            from,
            to,
        ),
{
    assert(ReadBuf::zeroed(ReadBuf::zeroed(before, from, to), from, to) =~= ReadBuf::zeroed(
        before,
        from,
        to,
    ));
}

} // verus!
