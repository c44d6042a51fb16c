//! Getting buffers and changing their size.

use vstd::prelude::*;
use crate::utils::colo::{vec_capacity, vec_shrink_to_fit};

verus! {

/// That many zeros.
pub open spec fn zeros(n: nat) -> Seq<u8> {
    Seq::new(n, |i: int| 0u8)
}

/// A buffer that can be made to a size.
pub trait Allocate: Sized {
    /// The bytes of the buffer.
    spec fn bytes(&self) -> Seq<u8>;

    /// The size of the buffer.
    fn capacity(&self) -> (r: usize)
        ensures
            r == self.bytes().len(),
    ;

    /// A buffer of `size` zeros.
    fn allocate(size: usize) -> (r: Self)
        ensures
            r.bytes() == zeros(size as nat),
    ;
}

/// A buffer whose size can be changed.
pub trait Realloc: Allocate {
    /// Makes the buffer larger or smaller. One that has room for `new_size` bytes is not made
    /// larger.
    fn realloc(&mut self, new_size: usize)
        requires
            new_size > 0,
        ensures
            exists|capacity: usize| #[trigger]
                reallocated(old(self).bytes(), new_size, capacity, final(self).bytes()),
    ;
}

/// Whether a buffer of the bytes `before`, which has room for `capacity` bytes, holds `after` once
/// it was made to the size `new_size`.
pub open spec fn reallocated(
    before: Seq<u8>,
    new_size: usize,
    capacity: usize,
    after: Seq<u8>,
) -> bool {
    &&& capacity >= before.len()
    &&& after == (if new_size > capacity {
        before + zeros((new_size - before.len()) as nat)
    } else if new_size < before.len() {
        before.take(new_size as int)
    } else {
        before
    })
}

/// Makes a buffer that has room for `capacity` bytes larger or smaller.
pub fn realloc_within(data: &mut Vec<u8>, new_size: usize, capacity: usize)
    requires
        capacity >= old(data)@.len(),
    ensures
        reallocated(old(data)@, new_size, capacity, final(data)@),
{
    if new_size > capacity {
        data.resize(new_size, 0);
        assert(data@ =~= old(data)@ + zeros((new_size - old(data)@.len()) as nat));
    } else if new_size < capacity {
        data.truncate(new_size);
        assert(new_size < old(data)@.len() ==> data@ =~= old(data)@.take(new_size as int));
        assert(new_size >= old(data)@.len() ==> data@ =~= old(data)@);
        vec_shrink_to_fit(data);
    }
}

impl Allocate for Vec<u8> {
    open spec fn bytes(&self) -> Seq<u8> {
        self@
    }

    fn capacity(&self) -> (r: usize) {
        self.len()
    }

    fn allocate(size: usize) -> (r: Self) {
        let r = vec![0u8; size];
        assert(r@ =~= zeros(size as nat));
        r
    }
}

impl Realloc for Vec<u8> {
    fn realloc(&mut self, new_size: usize) {
        let capacity = vec_capacity(self);
        realloc_within(self, new_size, capacity);
        assert(reallocated(old(self).bytes(), new_size, capacity, self.bytes()));
    }
}

/// What was in a buffer stays in it as far as it reaches, and what is new is zero: made smaller, it is
/// cut off at its size; made larger than there is room for, it has its size; and otherwise it is as it
/// was.
pub proof fn law_reallocated(before: Seq<u8>, new_size: usize, capacity: usize, after: Seq<u8>)
    requires
        reallocated(before, new_size, capacity, after),
    ensures
        forall|i: int| 0 <= i < after.len() && i < before.len() ==> after[i] == before[i],
        forall|i: int| before.len() <= i < after.len() ==> after[i] == 0,
        new_size > capacity || new_size < before.len() ==> after.len() == new_size,
        before.len() <= new_size <= capacity ==> after == before,
        capacity >= before.len(),
{
}

} // verus!
