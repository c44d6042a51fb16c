//! Three queues of buffers that were given back: small, medium and large ones.

use crossbeam_queue::SegQueue;
use vstd::prelude::*;
use super::allocate::{reallocated, zeros, Allocate, Realloc};

verus! {

/// The size up to which a buffer is small.
pub const LOW_LINE: usize = 2048;

/// The size up to which a buffer is medium.
pub const HIGH_LINE: usize = 65536;

#[verifier::external_type_specification]
#[verifier::external_body]
#[verifier::reject_recursive_types(T)]
pub struct ExSegQueue<T>(crossbeam_queue::SegQueue<T>);

/// What a `SegQueue` of buffers holds, from the first to the last.
pub uninterp spec fn queued(queue: SegQueue<Vec<u8>>) -> Seq<Vec<u8>>;

/// Calls `SegQueue::new`, which makes an empty queue.
#[verifier::external_body]
fn queue_new() -> (r: SegQueue<Vec<u8>>)
    ensures
        queued(r) == Seq::<Vec<u8>>::empty(),
{
    SegQueue::new()
}

/// Calls `SegQueue::push`, which puts an item at the back of the queue.
#[verifier::external_body]
fn queue_push(queue: &mut SegQueue<Vec<u8>>, value: Vec<u8>)
    ensures
        queued(*final(queue)) == queued(*old(queue)).push(value),
{
    queue.push(value)
}

/// Calls `SegQueue::pop`, which takes the item at the front of the queue out, if there is one.
#[verifier::external_body]
fn queue_pop(queue: &mut SegQueue<Vec<u8>>) -> (r: Option<Vec<u8>>)
    ensures
        queued(*old(queue)).len() == 0 ==> r is None && queued(*final(queue)) == queued(
            *old(queue),
        ),
        queued(*old(queue)).len() > 0 ==> r == Some(queued(*old(queue))[0]) && queued(*final(queue))
            == queued(*old(queue)).drop_first(),
{
    queue.pop()
}

/// Which queue a buffer belongs to.
#[derive(Clone, Copy, Debug, PartialEq, Eq, Structural)]
pub enum Bask {
    Small,
    Medium,
    Large,
}

/// The queue for buffers of the given size.
pub open spec fn bask_of(size: usize) -> Bask {
    if size <= LOW_LINE {
        Bask::Small
    } else if size <= HIGH_LINE {
        Bask::Medium
    } else {
        Bask::Large
    }
}

/// A pool of buffers.
pub struct BytePool {
    small_bask: SegQueue<Vec<u8>>,
    medium_bask: SegQueue<Vec<u8>>,
    large_bask: SegQueue<Vec<u8>>,
}

impl Default for BytePool {
    fn default() -> (r: Self)
        ensures
            forall|bask: Bask| #[trigger] r.bask(bask) == Seq::<Vec<u8>>::empty(),
    {
        BytePool { small_bask: queue_new(), medium_bask: queue_new(), large_bask: queue_new() }
    }
}

impl BytePool {
    /// The buffers in one of the queues.
    pub closed spec fn bask(&self, bask: Bask) -> Seq<Vec<u8>> {
        match bask {
            Bask::Small => queued(self.small_bask),
            Bask::Medium => queued(self.medium_bask),
            Bask::Large => queued(self.large_bask),
        }
    }

    /// The other queues hold what they held.
    pub open spec fn same_but(&self, other: &Self, bask: Bask) -> bool {
        forall|b: Bask| b != bask ==> #[trigger] self.bask(b) == other.bask(b)
    }

    pub fn new() -> (r: Self)
        ensures
            forall|bask: Bask| #[trigger] r.bask(bask) == Seq::<Vec<u8>>::empty(),
    {
        BytePool::default()
    }

    /// A buffer of the given size. The first one in the queue for such buffers is used again if it
    /// has just this size, and goes to the back of the queue if not.
    pub fn allocate(&mut self, size: usize) -> (r: ByteBuffer)
        ensures
            final(self).same_but(old(self), bask_of(size)),
            r.data().len() == size,
            ({
                let before = old(self).bask(bask_of(size));
                let after = final(self).bask(bask_of(size));
                if before.len() > 0 && before[0]@.len() == size {
                    r.data() == before[0]@ && after == before.drop_first()
                } else {
                    &&& r.data() == zeros(size as nat)
                    &&& after == (if before.len() > 0 {
                        before.drop_first().push(before[0])
                    } else {
                        before
                    })
                }
            }),
    {
        let list = if size <= LOW_LINE {
            &mut self.small_bask
        } else if size <= HIGH_LINE {
            &mut self.medium_bask
        } else {
            &mut self.large_bask
        };
        match queue_pop(list) {
            Some(el) => {
                if Allocate::capacity(&el) == size {
                    return ByteBuffer { data: el };
                }
                queue_push(list, el);
            },
            None => {},
        }
        ByteBuffer { data: Allocate::allocate(size) }
    }

    /// Puts a buffer into the queue for its size.
    fn push_raw_block(&mut self, buffer: Vec<u8>)
        ensures
            final(self).same_but(old(self), bask_of(buffer@.len() as usize)),
            final(self).bask(bask_of(buffer@.len() as usize)) == old(self).bask(
                bask_of(buffer@.len() as usize),
            ).push(buffer),
    {
        let size = Allocate::capacity(&buffer);
        if size <= LOW_LINE {
            queue_push(&mut self.small_bask, buffer);
        } else if size <= HIGH_LINE {
            queue_push(&mut self.medium_bask, buffer);
        } else {
            queue_push(&mut self.large_bask, buffer);
        }
    }
}

/// A buffer from a pool.
pub struct ByteBuffer {
    data: Vec<u8>,
}

impl ByteBuffer {
    /// The bytes of the buffer.
    pub closed spec fn data(&self) -> Seq<u8> {
        self.data@
    }

    pub fn size(&self) -> (r: usize)
        ensures
            r == self.data().len(),
    {
        Allocate::capacity(&self.data)
    }

    /// Makes the buffer larger or smaller. One that has room for `new_size` bytes is not made
    /// larger.
    pub fn realloc(&mut self, new_size: usize)
        requires
            new_size > 0,
        ensures
            exists|capacity: usize| #[trigger]
                reallocated(old(self).data(), new_size, capacity, final(self).data()),
    {
        let ghost before = self.data;
        self.data.realloc(new_size);
        proof {
            let capacity = choose|capacity: usize| #[trigger]
                reallocated(before.bytes(), new_size, capacity, self.data.bytes());
            assert(reallocated(old(self).data(), new_size, capacity, self.data()));
        }
    }

    /// The bytes, to be read and written.
    pub fn deref_mut(&mut self) -> (r: &mut Vec<u8>)
        ensures
            r@ == old(self).data(),
            final(self).data() == final(r)@,
    {
        &mut self.data
    }

    /// Gives the buffer back to the pool.
    pub fn drop(self, pool: &mut BytePool)
        ensures
            final(pool).same_but(old(pool), bask_of(self.data().len() as usize)),
            exists|buffer: Vec<u8>|
                buffer@ == self.data() && #[trigger] old(pool).bask(
                    bask_of(self.data().len() as usize),
                ).push(buffer) == final(pool).bask(bask_of(self.data().len() as usize)),
    {
        pool.push_raw_block(self.data);
    }
}

/// A buffer is small up to two kibibytes, medium up to sixty-four, and large beyond.
pub proof fn law_bask_of(size: usize)
    ensures
        bask_of(size) is Small <==> size <= 2048,
        bask_of(size) is Medium <==> 2048 < size <= 65536,
        bask_of(size) is Large <==> size > 65536,
{
}

} // verus!
