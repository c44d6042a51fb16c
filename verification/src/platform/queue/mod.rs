//! Queues that many threads push to and pop from.

pub mod bounded;
pub mod single;
pub mod unbounded;

use vstd::prelude::*;
use bounded::Bounded;
use single::Single;
use unbounded::Unbounded;

verus! {

/// Why nothing was popped.
#[derive(Clone, Copy, Debug, PartialEq, Eq, Structural)]
pub enum PopError {
    /// The queue is empty.
    Empty,
    /// The queue is empty and closed.
    Closed,
}

impl PopError {
    pub fn is_empty(&self) -> (r: bool)
        ensures
            r == (*self is Empty),
    {
        match self {
            PopError::Empty => true,
            PopError::Closed => false,
        }
    }

    pub fn is_closed(&self) -> (r: bool)
        ensures
            r == (*self is Closed),
    {
        match self {
            PopError::Empty => false,
            PopError::Closed => true,
        }
    }

    /// What is shown of the error.
    pub fn to_string(&self) -> (r: String)
        ensures
            r@ == (match *self {
                PopError::Empty => "Empty"@,
                PopError::Closed => "Closed"@,
            }),
    {
        match self {
            PopError::Empty => "Empty".to_string(),
            PopError::Closed => "Closed".to_string(),
        }
    }
}

/// Why nothing was pushed; holds what was to be pushed.
#[derive(Debug, PartialEq, Eq)]
pub enum PushError<T> {
    /// The queue is full.
    Full(T),
    /// The queue is closed.
    Closed(T),
}

impl<T> PushError<T> {
    /// What was to be pushed.
    pub open spec fn value(self) -> T {
        match self {
            PushError::Full(t) => t,
            PushError::Closed(t) => t,
        }
    }

    pub fn into_inner(self) -> (r: T)
        ensures
            r == self.value(),
    {
        match self {
            PushError::Full(t) => t,
            PushError::Closed(t) => t,
        }
    }

    pub fn is_full(&self) -> (r: bool)
        ensures
            r == (*self is Full),
    {
        match self {
            PushError::Full(_) => true,
            PushError::Closed(_) => false,
        }
    }

    pub fn is_closed(&self) -> (r: bool)
        ensures
            r == (*self is Closed),
    {
        match self {
            PushError::Full(_) => false,
            PushError::Closed(_) => true,
        }
    }

    /// What is shown of the error.
    pub fn to_string(&self) -> (r: String)
        ensures
            r@ == (match *self {
                PushError::Full(_) => "Full"@,
                PushError::Closed(_) => "Closed"@,
            }),
    {
        match self {
            PushError::Full(_) => "Full".to_string(),
            PushError::Closed(_) => "Closed".to_string(),
        }
    }
}

/// A first-in, first-out queue with or without a limit.
pub struct ConcurrentQueue<T>(Inner<T>);

enum Inner<T> {
    Single(Single<T>),
    Bounded(Box<Bounded<T>>),
    Unbounded(Box<Unbounded<T>>),
}

impl<T> ConcurrentQueue<T> {
    /// The queue is sound, and nothing in it is claimed.
    pub closed spec fn wf(&self) -> bool {
        match self.0 {
            Inner::Single(q) => q.wf() && q.settled(),
            Inner::Bounded(q) => q.wf() && q.settled() && q.items().len() <= q.spec_capacity()
                && q.spec_capacity() > 0,
            Inner::Unbounded(_) => true,
        }
    }

    pub closed spec fn items(&self) -> Seq<T> {
        match self.0 {
            Inner::Single(q) => q.items(),
            Inner::Bounded(q) => q.items(),
            Inner::Unbounded(q) => q.items(),
        }
    }

    pub closed spec fn closed(&self) -> bool {
        match self.0 {
            Inner::Single(q) => q.closed(),
            Inner::Bounded(q) => q.closed(),
            Inner::Unbounded(q) => q.closed(),
        }
    }

    /// How many items the queue has room for, if there is a limit.
    pub closed spec fn limit(&self) -> Option<nat> {
        match self.0 {
            Inner::Single(_) => Some(1),
            Inner::Bounded(q) => Some(q.spec_capacity()),
            Inner::Unbounded(_) => None,
        }
    }

    pub open spec fn full(&self) -> bool {
        self.limit() == Some(self.items().len())
    }

    /// A queue never holds more items than it has room for.
    pub proof fn lemma_within(&self)
        requires
            self.wf(),
        ensures
            self.limit() matches Some(limit) ==> self.items().len() <= limit,
    {
    }

    /// A queue with room for `cap` items.
    pub fn bounded(cap: usize) -> (r: Self)
        requires
            0 < cap <= usize::MAX / 4,
        ensures
            r.wf(),
            r.items() == Seq::<T>::empty(),
            r.limit() == Some(cap as nat),
            !r.closed(),
    {
        let r = if cap == 1 {
            ConcurrentQueue(Inner::Single(Single::new()))
        } else {
            ConcurrentQueue(Inner::Bounded(Box::new(Bounded::new(cap))))
        };
        assert(r.items() =~= Seq::<T>::empty());
        r
    }

    /// A queue without a limit.
    pub fn unbounded() -> (r: Self)
        ensures
            r.wf(),
            r.items() == Seq::<T>::empty(),
            r.limit() is None,
            !r.closed(),
    {
        ConcurrentQueue(Inner::Unbounded(Box::new(Unbounded::new())))
    }

    /// What comes of pushing `value`.
    pub open spec fn pushes(&self, value: T, r: Result<(), PushError<T>>, after: &Self) -> bool {
        &&& after.wf()
        &&& after.limit() == self.limit()
        &&& after.closed() == self.closed()
        &&& r == (if self.closed() {
            Err(PushError::Closed(value))
        } else if self.full() {
            Err(PushError::Full(value))
        } else {
            Ok::<(), PushError<T>>(())
        })
        &&& after.items() == (if r is Ok {
            self.items().push(value)
        } else {
            self.items()
        })
    }

    /// What comes of popping an item.
    pub open spec fn pops(&self, r: Result<T, PopError>, after: &Self) -> bool {
        &&& after.wf()
        &&& after.limit() == self.limit()
        &&& after.closed() == self.closed()
        &&& r == (if self.items().len() > 0 {
            Ok(self.items()[0])
        } else if self.closed() {
            Err(PopError::Closed)
        } else {
            Err(PopError::Empty)
        })
        &&& after.items() == (if r is Ok {
            self.items().drop_first()
        } else {
            self.items()
        })
    }

    /// Puts `value` at the end of the queue.
    pub fn push(&mut self, value: T) -> (r: Result<(), PushError<T>>)
        requires
            old(self).wf(),
        ensures
            old(self).pushes(value, r, final(self)),
    {
        match &mut self.0 {
            Inner::Single(q) => q.push(value),
            Inner::Bounded(q) => q.push(value),
            Inner::Unbounded(q) => q.push(value),
        }
    }

    /// Takes the first item out of the queue.
    pub fn pop(&mut self) -> (r: Result<T, PopError>)
        requires
            old(self).wf(),
        ensures
            old(self).pops(r, final(self)),
    {
        match &mut self.0 {
            Inner::Single(q) => q.pop(),
            Inner::Bounded(q) => q.pop(),
            Inner::Unbounded(q) => q.pop(),
        }
    }

    pub fn is_empty(&self) -> (r: bool)
        requires
            self.wf(),
        ensures
            r == (self.items().len() == 0),
    {
        match &self.0 {
            Inner::Single(q) => q.is_empty(),
            Inner::Bounded(q) => q.is_empty(),
            Inner::Unbounded(q) => q.is_empty(),
        }
    }

    pub fn is_full(&self) -> (r: bool)
        requires
            self.wf(),
        ensures
            r == self.full(),
    {
        match &self.0 {
            Inner::Single(q) => q.is_full(),
            Inner::Bounded(q) => q.is_full(),
            Inner::Unbounded(q) => q.is_full(),
        }
    }

    pub fn len(&self) -> (r: usize)
        requires
            self.wf(),
        ensures
            r == self.items().len(),
    {
        match &self.0 {
            Inner::Single(q) => q.len(),
            Inner::Bounded(q) => q.len(),
            Inner::Unbounded(q) => q.len(),
        }
    }

    pub fn capacity(&self) -> (r: Option<usize>)
        requires
            self.wf(),
        ensures
            match r {
                Some(cap) => self.limit() == Some(cap as nat),
                None => self.limit() is None,
            },
    {
        match &self.0 {
            Inner::Single(_) => Some(1),
            Inner::Bounded(q) => Some(q.capacity()),
            Inner::Unbounded(_) => None,
        }
    }

    /// Closes the queue; says whether it was open until now.
    pub fn close(&mut self) -> (r: bool)
        requires
            old(self).wf(),
        ensures
            final(self).wf(),
            final(self).limit() == old(self).limit(),
            final(self).closed(),
            final(self).items() == old(self).items(),
            r == !old(self).closed(),
    {
        match &mut self.0 {
            Inner::Single(q) => q.close(),
            Inner::Bounded(q) => q.close(),
            Inner::Unbounded(q) => q.close(),
        }
    }

    pub fn is_closed(&self) -> (r: bool)
        requires
            self.wf(),
        ensures
            r == self.closed(),
    {
        match &self.0 {
            Inner::Single(q) => q.is_closed(),
            Inner::Bounded(q) => q.is_closed(),
            Inner::Unbounded(q) => q.is_closed(),
        }
    }
}

/// Items are popped in the order in which they were pushed: an item that is pushed comes out
/// when all those that were there before have.
pub proof fn law_first_in_first_out<T>(
    before: ConcurrentQueue<T>,
    value: T,
    queues: Seq<ConcurrentQueue<T>>,
    results: Seq<Result<T, PopError>>,
)
    requires
        queues.len() == results.len() + 1,
        before.pushes(value, Ok(()), &queues[0]),
        forall|i: int|
            0 <= i < results.len() ==> queues[i].pops(#[trigger] results[i], &queues[i + 1]),
    ensures
        forall|i: int|
            0 <= i < results.len() && i < before.items().len() ==> #[trigger] results[i] == Ok::<
                T,
                PopError,
            >(before.items()[i]),
        before.items().len() < results.len() ==> results[before.items().len() as int] == Ok::<
            T,
            PopError,
        >(value),
{
    let all = queues[0].items();
    assert(all == before.items().push(value));
    assert forall|i: int| 0 <= i < results.len() && i < all.len() implies #[trigger] results[i]
        == Ok::<T, PopError>(all[i]) by {
        lemma_popped(queues, results, i as nat);
        assert(queues[i].pops(results[i], &queues[i + 1]));
    }
}

proof fn lemma_popped<T>(
    queues: Seq<ConcurrentQueue<T>>,
    results: Seq<Result<T, PopError>>,
    k: nat,
)
    requires
        queues.len() == results.len() + 1,
        k <= results.len(),
        k <= queues[0].items().len(),
        forall|i: int|
            0 <= i < results.len() ==> queues[i].pops(#[trigger] results[i], &queues[i + 1]),
    ensures
        queues[k as int].items() == queues[0].items().skip(k as int),
    decreases k,
{
    if k == 0 {
        assert(queues[0].items().skip(0) =~= queues[0].items());
    } else {
        let i = k - 1;
        lemma_popped(queues, results, i as nat);
        assert(queues[i].pops(results[i], &queues[i + 1]));
        assert(queues[0].items().skip(i).drop_first() =~= queues[0].items().skip(k as int));
    }
}

/// An item is taken in exactly if the queue is open and has room; one that is not is handed back, and
/// the queue is as it was. A queue that is closed takes in nothing, and gives out what is in it.
pub proof fn law_taken_in<T>(
    queue: ConcurrentQueue<T>,
    value: T,
    r: Result<(), PushError<T>>,
    after: ConcurrentQueue<T>,
)
    requires
        queue.wf(),
        queue.pushes(value, r, &after),
    ensures
        r is Ok <==> !queue.closed() && (queue.limit() matches Some(limit) ==> queue.items().len()
            < limit),
        r is Ok ==> after.items().len() == queue.items().len() + 1 && after.items().last() == value
            && after.items().drop_last() == queue.items(),
        r matches Err(e) ==> e.value() == value && after.items() == queue.items(),
        r matches Err(e) ==> (e is Closed <==> queue.closed()),
        after.closed() == queue.closed(),
        after.limit() == queue.limit(),
{
    queue.lemma_within();
    if r is Ok {
        assert(after.items().drop_last() =~= queue.items());
    }
}

/// An item comes out exactly if there is one, the first of them, whether the queue is closed or not;
/// if there is none, the queue is empty for good only if it is closed.
pub proof fn law_given_out<T>(
    queue: ConcurrentQueue<T>,
    r: Result<T, PopError>,
    after: ConcurrentQueue<T>,
)
    requires
        queue.pops(r, &after),
    ensures
        r is Ok <==> queue.items().len() > 0,
        r matches Ok(item) ==> queue.items() == seq![item] + after.items(),
        r is Err ==> after.items() == queue.items(),
        r == Err::<T, PopError>(PopError::Closed) <==> queue.items().len() == 0 && queue.closed(),
        after.closed() == queue.closed(),
        after.limit() == queue.limit(),
{
    if let Ok(item) = r {
        assert(queue.items() =~= seq![item] + after.items());
    }
}

} // verus!
